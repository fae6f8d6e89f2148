//! The syntax tree of a policy, and the grammar that reads it.

use crate::basic_parser::{
    expect, expect_syntax, is_syntax, lemma_list, lemma_skip_space, lemma_syntax, list, maybe,
    optional_syntax, outcome, parse_list, required_syntax, skip_space, space, syntax, try_syntax,
    at, Fault, Outcome, Parse, Parsed, Status,
};
use crate::text::{from_chars, number, number_of, spells, string_of};
use crate::tokens::{
    alias_name, is_alias_name, lemma_token, scan, token, trim_end, trimmed_len, TokenClass,
};
use vstd::prelude::*;

verus! {

/// An item with its sign: the policy negates items with an exclamation mark.
#[derive(Debug, Clone, PartialEq, Eq)]
pub enum Qualified<T> {
    Allow(T),
    Forbid(T),
}

/// An item that may also be the wildcard `ALL` or the name of an alias.
#[derive(Debug, Clone, PartialEq, Eq)]
pub enum Meta<T> {
    All,
    Only(T),
    Alias(String),
}

/// Many items can be replaced by `ALL` or an alias, and negated.
pub type Spec<T> = Qualified<Meta<T>>;

/// An ordered list of such items; later entries override earlier ones.
pub type SpecList<T> = Vec<Spec<T>>;

/// A name or a `#number`.
#[derive(Debug, Clone, PartialEq, Eq)]
pub enum Identifier {
    Name(String),
    ID(libc::gid_t),
}

/// A user, a group (`%`) or a group that is not a Unix group (`%:`).
#[derive(Debug, Clone, PartialEq, Eq)]
pub enum UserSpecifier {
    User(Identifier),
    Group(Identifier),
    NonunixGroup(Identifier),
}

/// The name of a host.
#[derive(Debug, Clone, PartialEq, Eq)]
pub struct Hostname(pub String);

/// A command: a pattern for its absolute path and, optionally, one for its
/// arguments.
#[derive(Debug, Clone, PartialEq, Eq)]
pub struct Command {
    pub path: String,
    pub args: Option<String>,
}

/// The users and groups that a command may run as.
#[derive(Debug, Clone, PartialEq, Eq)]
pub struct RunAs {
    pub users: SpecList<UserSpecifier>,
    pub groups: SpecList<Identifier>,
}

/// Attributes that the policy attaches to commands.
#[derive(Debug, Clone, Copy, PartialEq, Eq, Structural)]
pub enum Tag {
    NoPasswd,
    Timeout(i32),
}

/// A command with its attributes.
#[derive(Debug, Clone, PartialEq, Eq)]
pub struct CommandSpec(pub Vec<Tag>, pub Spec<Command>);

/// One permission line of the policy.
#[derive(Debug, Clone, PartialEq, Eq)]
pub struct PermissionSpec {
    pub users: SpecList<UserSpecifier>,
    pub permissions: Vec<(SpecList<Hostname>, Option<RunAs>, Vec<CommandSpec>)>,
}

/// The definition of an alias: its name and what it stands for.
#[derive(Debug, Clone, PartialEq, Eq)]
pub struct Def<T>(pub String, pub SpecList<T>);

/// A line that declares an alias or changes a setting.
#[derive(Debug, Clone, PartialEq, Eq)]
pub enum Directive {
    UserAlias(Def<UserSpecifier>),
    HostAlias(Def<Hostname>),
    CmndAlias(Def<Command>),
    RunasAlias(Def<UserSpecifier>),
    Defaults(String, DefaultValue),
}

/// The value that a `Defaults` line gives to a setting.
#[derive(Debug, Clone, PartialEq, Eq)]
pub enum DefaultValue {
    Flag(bool),
    Text(String),
    List(Mode, Vec<String>),
}

/// How a `Defaults` line changes a list: `+=` adds, `=` assigns, `-=` removes.
#[derive(Debug, Clone, Copy, PartialEq, Eq, Structural)]
pub enum Mode {
    Add,
    Assign,
    Del,
}

/// One line of the policy.
#[derive(Debug, Clone, PartialEq, Eq)]
pub enum Sudo {
    Spec(PermissionSpec),
    Decl(Directive),
    Include(String),
    IncludeDir(String),
    LineComment,
}

/// The model of a [`Meta`].
pub enum MetaView<V> {
    All,
    Only(V),
    Alias(Seq<char>),
}

/// The model of a [`Spec`].
pub type SpecView<V> = Qualified<MetaView<V>>;

/// The model of [`Identifier`].
pub enum IdentifierView {
    Name(Seq<char>),
    ID(u32),
}

/// The model of [`UserSpecifier`].
pub enum UserSpecifierView {
    User(IdentifierView),
    Group(IdentifierView),
    NonunixGroup(IdentifierView),
}

/// The model of [`Command`].
pub struct CommandView {
    pub path: Seq<char>,
    pub args: Option<Seq<char>>,
}

/// The model of [`RunAs`].
pub struct RunAsView {
    pub users: Seq<SpecView<UserSpecifierView>>,
    pub groups: Seq<SpecView<IdentifierView>>,
}

/// The model of [`CommandSpec`].
pub struct CommandSpecView(pub Seq<Tag>, pub SpecView<CommandView>);

/// The model of one `hosts = (runas) commands` part of a permission line.
pub type GrantView = (Seq<SpecView<Seq<char>>>, Option<RunAsView>, Seq<CommandSpecView>);

/// The model of [`PermissionSpec`].
pub struct PermissionSpecView {
    pub users: Seq<SpecView<UserSpecifierView>>,
    pub permissions: Seq<GrantView>,
}

/// The model of [`Def`].
pub struct DefView<V>(pub Seq<char>, pub Seq<SpecView<V>>);

/// The model of [`Directive`].
pub enum DirectiveView {
    UserAlias(DefView<UserSpecifierView>),
    HostAlias(DefView<Seq<char>>),
    CmndAlias(DefView<CommandView>),
    RunasAlias(DefView<UserSpecifierView>),
    Defaults(Seq<char>, DefaultValueView),
}

/// The model of [`DefaultValue`].
pub enum DefaultValueView {
    Flag(bool),
    Text(Seq<char>),
    List(Mode, Seq<Seq<char>>),
}

/// The model of [`Sudo`].
pub enum SudoView {
    Spec(PermissionSpecView),
    Decl(DirectiveView),
    Include(Seq<char>),
    IncludeDir(Seq<char>),
    LineComment,
}

impl<T: DeepView> DeepView for Qualified<T> {
    type V = Qualified<T::V>;

    open spec fn deep_view(&self) -> Qualified<T::V> {
        match self {
            Qualified::Allow(t) => Qualified::Allow(t.deep_view()),
            Qualified::Forbid(t) => Qualified::Forbid(t.deep_view()),
        }
    }
}

impl<T: DeepView> DeepView for Meta<T> {
    type V = MetaView<T::V>;

    open spec fn deep_view(&self) -> MetaView<T::V> {
        match self {
            Meta::All => MetaView::All,
            Meta::Only(t) => MetaView::Only(t.deep_view()),
            Meta::Alias(name) => MetaView::Alias(name@),
        }
    }
}

impl DeepView for Identifier {
    type V = IdentifierView;

    open spec fn deep_view(&self) -> IdentifierView {
        match self {
            Identifier::Name(name) => IdentifierView::Name(name@),
            Identifier::ID(id) => IdentifierView::ID(*id),
        }
    }
}

impl DeepView for UserSpecifier {
    type V = UserSpecifierView;

    open spec fn deep_view(&self) -> UserSpecifierView {
        match self {
            UserSpecifier::User(id) => UserSpecifierView::User(id.deep_view()),
            UserSpecifier::Group(id) => UserSpecifierView::Group(id.deep_view()),
            UserSpecifier::NonunixGroup(id) => UserSpecifierView::NonunixGroup(id.deep_view()),
        }
    }
}

impl DeepView for Hostname {
    type V = Seq<char>;

    open spec fn deep_view(&self) -> Seq<char> {
        self.0@
    }
}

impl DeepView for Command {
    type V = CommandView;

    open spec fn deep_view(&self) -> CommandView {
        CommandView { path: self.path@, args: self.args.deep_view() }
    }
}

impl DeepView for RunAs {
    type V = RunAsView;

    open spec fn deep_view(&self) -> RunAsView {
        RunAsView { users: self.users.deep_view(), groups: self.groups.deep_view() }
    }
}

impl Default for RunAs {
    /// A `runas` part that names nobody.
    fn default() -> (r: Self)
        ensures
            r.deep_view() == (RunAsView { users: Seq::empty(), groups: Seq::empty() }),
    {
        let r = RunAs { users: Vec::new(), groups: Vec::new() };
        assert(r.users.deep_view() =~= Seq::<SpecView<UserSpecifierView>>::empty());
        assert(r.groups.deep_view() =~= Seq::<SpecView<IdentifierView>>::empty());
        r
    }
}

impl DeepView for Tag {
    type V = Tag;

    open spec fn deep_view(&self) -> Tag {
        *self
    }
}

impl DeepView for CommandSpec {
    type V = CommandSpecView;

    open spec fn deep_view(&self) -> CommandSpecView {
        CommandSpecView(self.0@, self.1.deep_view())
    }
}

impl DeepView for PermissionSpec {
    type V = PermissionSpecView;

    open spec fn deep_view(&self) -> PermissionSpecView {
        PermissionSpecView {
            users: self.users.deep_view(),
            permissions: self.permissions.deep_view(),
        }
    }
}

impl<T: DeepView> DeepView for Def<T> {
    type V = DefView<T::V>;

    open spec fn deep_view(&self) -> DefView<T::V> {
        DefView(self.0@, self.1.deep_view())
    }
}

impl DeepView for DefaultValue {
    type V = DefaultValueView;

    open spec fn deep_view(&self) -> DefaultValueView {
        match self {
            DefaultValue::Flag(b) => DefaultValueView::Flag(*b),
            DefaultValue::Text(t) => DefaultValueView::Text(t@),
            DefaultValue::List(mode, items) => DefaultValueView::List(*mode, items.deep_view()),
        }
    }
}

impl DeepView for Directive {
    type V = DirectiveView;

    open spec fn deep_view(&self) -> DirectiveView {
        match self {
            Directive::UserAlias(d) => DirectiveView::UserAlias(d.deep_view()),
            Directive::HostAlias(d) => DirectiveView::HostAlias(d.deep_view()),
            Directive::CmndAlias(d) => DirectiveView::CmndAlias(d.deep_view()),
            Directive::RunasAlias(d) => DirectiveView::RunasAlias(d.deep_view()),
            Directive::Defaults(name, value) => DirectiveView::Defaults(name@, value.deep_view()),
        }
    }
}

impl DeepView for Sudo {
    type V = SudoView;

    open spec fn deep_view(&self) -> SudoView {
        match self {
            Sudo::Spec(p) => SudoView::Spec(p.deep_view()),
            Sudo::Decl(d) => SudoView::Decl(d.deep_view()),
            Sudo::Include(path) => SudoView::Include(path@),
            Sudo::IncludeDir(path) => SudoView::IncludeDir(path@),
            Sudo::LineComment => SudoView::LineComment,
        }
    }
}

/// An entry of a list together with what is attached to it: a command has
/// tags, any other entry has nothing.
pub trait Tagged<U> {
    type Flags;

    /// The entry itself.
    spec fn entry(&self) -> Spec<U>;

    /// What is attached to the entry.
    spec fn info(&self) -> Self::Flags;

    fn into(&self) -> (r: &Spec<U>)
        ensures
            *r == self.entry(),
    ;

    fn to_info(&self) -> (r: &Self::Flags)
        ensures
            *r == self.info(),
    ;
}

impl<T> Tagged<T> for Spec<T> {
    type Flags = ();

    open spec fn entry(&self) -> Spec<T> {
        *self
    }

    open spec fn info(&self) -> () {
        ()
    }

    fn into(&self) -> (r: &Spec<T>) {
        self
    }

    fn to_info(&self) -> (r: &()) {
        &()
    }
}

impl Tagged<Command> for CommandSpec {
    type Flags = Vec<Tag>;

    open spec fn entry(&self) -> Spec<Command> {
        self.1
    }

    open spec fn info(&self) -> Vec<Tag> {
        self.0
    }

    fn into(&self) -> (r: &Spec<Command>) {
        &self.1
    }

    fn to_info(&self) -> (r: &Vec<Tag>) {
        &self.0
    }
}

/// The most entries that a list in the policy may hold.
pub const LIST_LIMIT: usize = 127;

/// What a token stands for where `ALL` and aliases are allowed: the wildcard,
/// an alias, or the item `only` that the token spells.
pub open spec fn meta_of<V>(t: Seq<char>, only: V) -> MetaView<V> {
    if t == "ALL"@ {
        MetaView::All
    } else if is_alias_name(t) {
        MetaView::Alias(t)
    } else {
        MetaView::Only(only)
    }
}

/// ```text
/// identifier = name
///            | #<numerical id>
/// ```
pub open spec fn identifier(s: Seq<char>, pos: int) -> Outcome<IdentifierView> {
    if 0 <= pos < s.len() && s[pos] == '#' {
        match token(TokenClass::Digits, s, pos + 1).required(pos + 1) {
            Outcome::Accept(t, p) => if number(t) > u32::MAX {
                Outcome::Fatal(Fault::NumberTooLarge, pos + 1)
            } else {
                Outcome::Accept(IdentifierView::ID(number(t) as u32), p)
            },
            Outcome::Reject => Outcome::Reject,
            Outcome::Fatal(f, p) => Outcome::Fatal(f, p),
        }
    } else {
        match token(TokenClass::Username, s, pos) {
            Outcome::Accept(t, p) => Outcome::Accept(IdentifierView::Name(t), p),
            Outcome::Reject => Outcome::Reject,
            Outcome::Fatal(f, p) => Outcome::Fatal(f, p),
        }
    }
}

impl Parse for Identifier {
    open spec fn grammar(s: Seq<char>, pos: int) -> Outcome<IdentifierView> {
        identifier(s, pos)
    }

    proof fn lemma_grammar(s: Seq<char>, pos: int) {
        if pos < s.len() {
            lemma_token(TokenClass::Digits, s, pos + 1);
        }
        lemma_token(TokenClass::Username, s, pos);
    }

    fn parse(s: &Vec<char>, pos: usize) -> (r: Parsed<Self>) {
        if at('#', s, pos) {
            let (t, p) = expect(scan(TokenClass::Digits, s, pos + 1), pos + 1)?;
            assert(t@.subrange(0, t.len() as int) == t@);
            assert(t.deep_view() =~= t@);
            match number_of(&t, 0, t.len()) {
                Some(n) => Ok((Identifier::ID(n), p)),
                None => Err(Status::Fatal(Fault::NumberTooLarge, pos + 1)),
            }
        } else {
            let (t, p) = scan(TokenClass::Username, s, pos)?;
            assert(t.deep_view() =~= t@);
            Ok((Identifier::Name(from_chars(&t)), p))
        }
    }
}

/// An item behind one or more exclamation marks; `neg` is the sign that the
/// marks before `pos` add up to. The item has to be there.
pub open spec fn signed<T: Parse>(s: Seq<char>, pos: int, neg: bool) -> Outcome<Qualified<T::V>>
    recommends
        0 <= pos <= s.len(),
    decreases s.len() - pos,
{
    if 0 <= pos < s.len() && s[pos] == '!' {
        match skip_space(s, pos + 1) {
            Outcome::Accept(_, p) => {
                proof {
                    lemma_skip_space(s, pos + 1);
                }
                signed::<T>(s, p, !neg)
            },
            Outcome::Reject => Outcome::Reject,
            Outcome::Fatal(f, p) => Outcome::Fatal(f, p),
        }
    } else {
        match T::grammar(s, pos).required(pos) {
            Outcome::Accept(v, p) => Outcome::Accept(
                if neg {
                    Qualified::Forbid(v)
                } else {
                    Qualified::Allow(v)
                },
                p,
            ),
            Outcome::Reject => Outcome::Reject,
            Outcome::Fatal(f, p) => Outcome::Fatal(f, p),
        }
    }
}

/// ```text
/// qualified<T> = T | "!", qualified<T>
/// ```
/// The sign is the parity of the exclamation marks.
pub open spec fn qualified<T: Parse>(s: Seq<char>, pos: int) -> Outcome<Qualified<T::V>> {
    if 0 <= pos < s.len() && s[pos] == '!' {
        signed::<T>(s, pos, false)
    } else {
        match T::grammar(s, pos) {
            Outcome::Accept(v, p) => Outcome::Accept(Qualified::Allow(v), p),
            Outcome::Reject => Outcome::Reject,
            Outcome::Fatal(f, p) => Outcome::Fatal(f, p),
        }
    }
}

/// An item behind exclamation marks is read inside the text and is never
/// rejected.
pub proof fn lemma_signed<T: Parse>(s: Seq<char>, pos: int, neg: bool)
    requires
        0 <= pos <= s.len(),
    ensures
        signed::<T>(s, pos, neg).within(s, pos),
        !(signed::<T>(s, pos, neg) is Reject),
    decreases s.len() - pos,
{
    if pos < s.len() && s[pos] == '!' {
        lemma_skip_space(s, pos + 1);
        match skip_space(s, pos + 1) {
            Outcome::Accept(_, p) => {
                lemma_signed::<T>(s, p, !neg);
            },
            _ => {},
        }
    } else {
        T::lemma_grammar(s, pos);
    }
}

/// Two exclamation marks cancel: an item behind `!!` is read as the item is.
pub proof fn lemma_double_negation<T: Parse>(s: Seq<char>, pos: int, mid: int, end: int)
    requires
        0 <= pos <= s.len(),
        syntax('!', s, pos) == Outcome::Accept((), mid),
        syntax('!', s, mid) == Outcome::Accept((), end),
        !(qualified::<T>(s, end) is Reject),
    ensures
        qualified::<T>(s, pos) == qualified::<T>(s, end),
{
    lemma_syntax('!', s, pos);
    lemma_syntax('!', s, mid);
    assert(signed::<T>(s, pos, false) == signed::<T>(s, mid, true));
    assert(signed::<T>(s, mid, true) == signed::<T>(s, end, false));
}

impl<T: Parse> Parse for Qualified<T> {
    open spec fn grammar(s: Seq<char>, pos: int) -> Outcome<Qualified<T::V>> {
        qualified::<T>(s, pos)
    }

    proof fn lemma_grammar(s: Seq<char>, pos: int) {
        lemma_signed::<T>(s, pos, false);
        T::lemma_grammar(s, pos);
    }

    fn parse(s: &Vec<char>, pos: usize) -> (r: Parsed<Self>) {
        if at('!', s, pos) {
            let mut neg = false;
            let mut here = pos;
            while at('!', s, here)
                invariant
                    pos <= here <= s.len(),
                    signed::<T>(s@, here as int, neg) == signed::<T>(s@, pos as int, false),
                decreases s.len() - here,
            {
                let (_, p) = space(s, here + 1)?;
                neg = !neg;
                here = p;
            }
            let (item, p) = expect(T::parse(s, here), here)?;
            if neg {
                Ok((Qualified::Forbid(item), p))
            } else {
                Ok((Qualified::Allow(item), p))
            }
        } else {
            let (item, p) = T::parse(s, pos)?;
            Ok((Qualified::Allow(item), p))
        }
    }
}

/// A name where `ALL` and aliases may stand too.
pub open spec fn meta_name(class: TokenClass, s: Seq<char>, pos: int) -> Outcome<
    MetaView<Seq<char>>,
> {
    match token(class, s, pos) {
        Outcome::Accept(t, p) => Outcome::Accept(meta_of(t, t), p),
        Outcome::Reject => Outcome::Reject,
        Outcome::Fatal(f, p) => Outcome::Fatal(f, p),
    }
}

/// The wildcard, an alias or a plain name, as a token of the class spells it.
pub enum Word {
    All,
    Alias(String),
    Plain(String),
}

impl DeepView for Word {
    type V = MetaView<Seq<char>>;

    open spec fn deep_view(&self) -> MetaView<Seq<char>> {
        match self {
            Word::All => MetaView::All,
            Word::Alias(name) => MetaView::Alias(name@),
            Word::Plain(name) => MetaView::Only(name@),
        }
    }
}

/// Tells the wildcard, an alias and a plain name apart.
pub fn word_of(t: &Vec<char>) -> (w: Word)
    ensures
        w.deep_view() == meta_of(t@, t@),
{
    if spells(t, "ALL") {
        Word::All
    } else if alias_name(t) {
        Word::Alias(from_chars(t))
    } else {
        Word::Plain(from_chars(t))
    }
}

/// Reads a name where `ALL` and aliases may stand too.
pub fn parse_word(class: TokenClass, s: &Vec<char>, pos: usize) -> (r: Parsed<Word>)
    requires
        pos <= s.len(),
    ensures
        outcome(r) == meta_name(class, s@, pos as int),
        outcome(r).within(s@, pos as int),
{
    let (t, p) = scan(class, s, pos)?;
    assert(t.deep_view() =~= t@);
    Ok((word_of(&t), p))
}

/// An identifier, `ALL` or an alias. A name in upper case is an alias.
pub open spec fn meta_identifier(s: Seq<char>, pos: int) -> Outcome<MetaView<IdentifierView>> {
    match meta_name(TokenClass::Username, s, pos) {
        Outcome::Accept(MetaView::All, p) => Outcome::Accept(MetaView::All, p),
        Outcome::Accept(MetaView::Alias(a), p) => Outcome::Accept(MetaView::Alias(a), p),
        Outcome::Accept(MetaView::Only(n), p) => Outcome::Accept(
            MetaView::Only(IdentifierView::Name(n)),
            p,
        ),
        Outcome::Reject => match identifier(s, pos) {
            Outcome::Accept(v, p) => Outcome::Accept(MetaView::Only(v), p),
            Outcome::Reject => Outcome::Reject,
            Outcome::Fatal(f, p) => Outcome::Fatal(f, p),
        },
        Outcome::Fatal(f, p) => Outcome::Fatal(f, p),
    }
}

impl Parse for Meta<Identifier> {
    open spec fn grammar(s: Seq<char>, pos: int) -> Outcome<MetaView<IdentifierView>> {
        meta_identifier(s, pos)
    }

    proof fn lemma_grammar(s: Seq<char>, pos: int) {
        lemma_token(TokenClass::Username, s, pos);
        Identifier::lemma_grammar(s, pos);
    }

    fn parse(s: &Vec<char>, pos: usize) -> (r: Parsed<Self>) {
        match parse_word(TokenClass::Username, s, pos) {
            Ok((Word::All, p)) => Ok((Meta::All, p)),
            Ok((Word::Alias(a), p)) => Ok((Meta::Alias(a), p)),
            Ok((Word::Plain(n), p)) => Ok((Meta::Only(Identifier::Name(n)), p)),
            Err(Status::Reject) => {
                let (id, p) = Identifier::parse(s, pos)?;
                Ok((Meta::Only(id), p))
            },
            Err(e) => Err(e),
        }
    }
}

/// ```text
/// userspec = identifier
///          | %identifier
///          | %:identifier
///          | +netgroup
/// ```
/// Netgroups are recognised and refused.
pub open spec fn user_specifier(s: Seq<char>, pos: int) -> Outcome<UserSpecifierView> {
    if 0 <= pos < s.len() && s[pos] == '%' {
        if pos + 1 < s.len() && s[pos + 1] == ':' {
            match identifier(s, pos + 2).required(pos + 2) {
                Outcome::Accept(v, p) => Outcome::Accept(UserSpecifierView::NonunixGroup(v), p),
                Outcome::Reject => Outcome::Reject,
                Outcome::Fatal(f, p) => Outcome::Fatal(f, p),
            }
        } else {
            match identifier(s, pos + 1).required(pos + 1) {
                Outcome::Accept(v, p) => Outcome::Accept(UserSpecifierView::Group(v), p),
                Outcome::Reject => Outcome::Reject,
                Outcome::Fatal(f, p) => Outcome::Fatal(f, p),
            }
        }
    } else if 0 <= pos < s.len() && s[pos] == '+' {
        Outcome::Fatal(Fault::Netgroup, pos + 1)
    } else {
        match identifier(s, pos) {
            Outcome::Accept(v, p) => Outcome::Accept(UserSpecifierView::User(v), p),
            Outcome::Reject => Outcome::Reject,
            Outcome::Fatal(f, p) => Outcome::Fatal(f, p),
        }
    }
}

impl Parse for UserSpecifier {
    open spec fn grammar(s: Seq<char>, pos: int) -> Outcome<UserSpecifierView> {
        user_specifier(s, pos)
    }

    proof fn lemma_grammar(s: Seq<char>, pos: int) {
        Identifier::lemma_grammar(s, pos);
        if pos < s.len() {
            Identifier::lemma_grammar(s, pos + 1);
        }
        if pos + 1 < s.len() {
            Identifier::lemma_grammar(s, pos + 2);
        }
    }

    fn parse(s: &Vec<char>, pos: usize) -> (r: Parsed<Self>) {
        if at('%', s, pos) {
            if at(':', s, pos + 1) {
                let (id, p) = expect(Identifier::parse(s, pos + 2), pos + 2)?;
                Ok((UserSpecifier::NonunixGroup(id), p))
            } else {
                let (id, p) = expect(Identifier::parse(s, pos + 1), pos + 1)?;
                Ok((UserSpecifier::Group(id), p))
            }
        } else if at('+', s, pos) {
            Err(Status::Fatal(Fault::Netgroup, pos + 1))
        } else {
            let (id, p) = Identifier::parse(s, pos)?;
            Ok((UserSpecifier::User(id), p))
        }
    }
}

/// A user specifier, `ALL` or an alias. A name in upper case is an alias.
pub open spec fn meta_user(s: Seq<char>, pos: int) -> Outcome<MetaView<UserSpecifierView>> {
    match meta_name(TokenClass::Username, s, pos) {
        Outcome::Accept(MetaView::All, p) => Outcome::Accept(MetaView::All, p),
        Outcome::Accept(MetaView::Alias(a), p) => Outcome::Accept(MetaView::Alias(a), p),
        Outcome::Accept(MetaView::Only(n), p) => Outcome::Accept(
            MetaView::Only(UserSpecifierView::User(IdentifierView::Name(n))),
            p,
        ),
        Outcome::Reject => match user_specifier(s, pos) {
            Outcome::Accept(v, p) => Outcome::Accept(MetaView::Only(v), p),
            Outcome::Reject => Outcome::Reject,
            Outcome::Fatal(f, p) => Outcome::Fatal(f, p),
        },
        Outcome::Fatal(f, p) => Outcome::Fatal(f, p),
    }
}

impl Parse for Meta<UserSpecifier> {
    open spec fn grammar(s: Seq<char>, pos: int) -> Outcome<MetaView<UserSpecifierView>> {
        meta_user(s, pos)
    }

    proof fn lemma_grammar(s: Seq<char>, pos: int) {
        lemma_token(TokenClass::Username, s, pos);
        UserSpecifier::lemma_grammar(s, pos);
    }

    fn parse(s: &Vec<char>, pos: usize) -> (r: Parsed<Self>) {
        match parse_word(TokenClass::Username, s, pos) {
            Ok((Word::All, p)) => Ok((Meta::All, p)),
            Ok((Word::Alias(a), p)) => Ok((Meta::Alias(a), p)),
            Ok((Word::Plain(n), p)) => Ok(
                (Meta::Only(UserSpecifier::User(Identifier::Name(n))), p),
            ),
            Err(Status::Reject) => {
                let (u, p) = UserSpecifier::parse(s, pos)?;
                Ok((Meta::Only(u), p))
            },
            Err(e) => Err(e),
        }
    }
}

/// The name of a host, `ALL` or an alias.
pub open spec fn meta_host(s: Seq<char>, pos: int) -> Outcome<MetaView<Seq<char>>> {
    meta_name(TokenClass::Hostname, s, pos)
}

impl Parse for Meta<Hostname> {
    open spec fn grammar(s: Seq<char>, pos: int) -> Outcome<MetaView<Seq<char>>> {
        meta_host(s, pos)
    }

    proof fn lemma_grammar(s: Seq<char>, pos: int) {
        lemma_token(TokenClass::Hostname, s, pos);
    }

    fn parse(s: &Vec<char>, pos: usize) -> (r: Parsed<Self>) {
        match parse_word(TokenClass::Hostname, s, pos) {
            Ok((Word::All, p)) => Ok((Meta::All, p)),
            Ok((Word::Alias(a), p)) => Ok((Meta::Alias(a), p)),
            Ok((Word::Plain(n), p)) => Ok((Meta::Only(Hostname(n)), p)),
            Err(e) => Err(e),
        }
    }
}

/// The first position from `from` on that holds a blank, or the end of `t`.
pub open spec fn first_blank(t: Seq<char>, from: int) -> int
    decreases t.len() - from,
{
    if 0 <= from < t.len() && !crate::text::is_blank(t[from]) {
        first_blank(t, from + 1)
    } else {
        from
    }
}

/// The command that `t` spells: the path up to the first blank and, where
/// more follows the blanks, the pattern for the arguments.
pub open spec fn command_of(t: Seq<char>) -> CommandView {
    let e = first_blank(t, 0);
    let a = crate::basic_parser::skip_blanks(t, e);
    CommandView {
        path: t.subrange(0, e),
        args: if a < t.len() {
            Some(t.subrange(a, t.len() as int))
        } else {
            None
        },
    }
}

/// Makes a command of the characters that spell it.
pub fn command_from(t: &Vec<char>) -> (c: Command)
    ensures
        c.deep_view() == command_of(t@),
{
    let mut e: usize = 0;
    while e < t.len() && !crate::text::blank(t[e])
        invariant
            e <= t.len(),
            first_blank(t@, e as int) == first_blank(t@, 0),
        decreases t.len() - e,
    {
        e += 1;
    }
    let a = crate::basic_parser::blanks(t, e);
    let path = string_of(t, 0, e);
    let args = if a < t.len() {
        Some(string_of(t, a, t.len()))
    } else {
        None
    };
    Command { path, args }
}

/// A command, `ALL` or an alias. What is neither `ALL` nor a name in upper case
/// has to be an absolute path.
pub open spec fn meta_command(s: Seq<char>, pos: int) -> Outcome<MetaView<CommandView>> {
    match token(TokenClass::Command, s, pos) {
        Outcome::Accept(raw, p) => {
            let t = trim_end(raw);
            if t == "ALL"@ {
                Outcome::Accept(MetaView::All, p)
            } else if is_alias_name(t) {
                Outcome::Accept(MetaView::Alias(t), p)
            } else if t.len() > 0 && t[0] == '/' {
                Outcome::Accept(MetaView::Only(command_of(t)), p)
            } else {
                Outcome::Fatal(Fault::BadCommand, pos)
            }
        },
        Outcome::Reject => Outcome::Reject,
        Outcome::Fatal(f, p) => Outcome::Fatal(f, p),
    }
}

impl Parse for Meta<Command> {
    open spec fn grammar(s: Seq<char>, pos: int) -> Outcome<MetaView<CommandView>> {
        meta_command(s, pos)
    }

    proof fn lemma_grammar(s: Seq<char>, pos: int) {
        lemma_token(TokenClass::Command, s, pos);
    }

    fn parse(s: &Vec<char>, pos: usize) -> (r: Parsed<Self>) {
        let (mut t, p) = scan(TokenClass::Command, s, pos)?;
        assert(t.deep_view() =~= t@);
        let n = trimmed_len(&t);
        t.truncate(n);
        if spells(&t, "ALL") {
            Ok((Meta::All, p))
        } else if alias_name(&t) {
            Ok((Meta::Alias(from_chars(&t)), p))
        } else if t.len() > 0 && t[0] == '/' {
            Ok((Meta::Only(command_from(&t)), p))
        } else {
            Err(Status::Fatal(Fault::BadCommand, pos))
        }
    }
}

/// The entries between the brackets of a `runas` part, where there are any.
pub open spec fn maybe_list<T: Parse>(s: Seq<char>, pos: int) -> Outcome<Seq<T::V>> {
    match list::<T>(',', LIST_LIMIT as nat, s, pos) {
        Outcome::Accept(v, p) => Outcome::Accept(v, p),
        Outcome::Reject => Outcome::Accept(Seq::empty(), pos),
        Outcome::Fatal(f, p) => Outcome::Fatal(f, p),
    }
}

/// ```text
/// runas = "(", userlist, (":", grouplist?)?, ")"
/// ```
/// Either list may be missing.
pub open spec fn runas(s: Seq<char>, pos: int) -> Outcome<RunAsView> {
    match syntax('(', s, pos) {
        Outcome::Accept(_, p) => match maybe_list::<Spec<UserSpecifier>>(s, p) {
            Outcome::Accept(users, q) => match optional_syntax(':', s, q) {
                Outcome::Accept(colon, q1) => match (if colon {
                    maybe_list::<Spec<Identifier>>(s, q1)
                } else {
                    Outcome::Accept(Seq::empty(), q1)
                }) {
                    Outcome::Accept(groups, q2) => match required_syntax(')', s, q2) {
                        Outcome::Accept(_, e) => Outcome::Accept(RunAsView { users, groups }, e),
                        Outcome::Reject => Outcome::Reject,
                        Outcome::Fatal(f, e) => Outcome::Fatal(f, e),
                    },
                    Outcome::Reject => Outcome::Reject,
                    Outcome::Fatal(f, e) => Outcome::Fatal(f, e),
                },
                Outcome::Reject => Outcome::Reject,
                Outcome::Fatal(f, e) => Outcome::Fatal(f, e),
            },
            Outcome::Reject => Outcome::Reject,
            Outcome::Fatal(f, e) => Outcome::Fatal(f, e),
        },
        Outcome::Reject => Outcome::Reject,
        Outcome::Fatal(f, p) => Outcome::Fatal(f, p),
    }
}

/// A list that may be missing is read inside the text and is never rejected.
pub proof fn lemma_maybe_list<T: Parse>(s: Seq<char>, pos: int)
    requires
        0 <= pos <= s.len(),
    ensures
        maybe_list::<T>(s, pos).within(s, pos),
        !(maybe_list::<T>(s, pos) is Reject),
{
    lemma_list::<T>(',', LIST_LIMIT as nat, s, pos);
}

fn parse_maybe_list<T: Parse>(s: &Vec<char>, pos: usize) -> (r: Parsed<Vec<T>>)
    requires
        pos <= s.len(),
    ensures
        outcome(r) == maybe_list::<T>(s@, pos as int),
        outcome(r).within(s@, pos as int),
{
    match parse_list::<T>(',', LIST_LIMIT, s, pos) {
        Ok((v, p)) => Ok((v, p)),
        Err(Status::Reject) => {
            let v: Vec<T> = Vec::new();
            assert(v.deep_view() =~= Seq::<T::V>::empty());
            Ok((v, pos))
        },
        Err(e) => Err(e),
    }
}

impl Parse for RunAs {
    open spec fn grammar(s: Seq<char>, pos: int) -> Outcome<RunAsView> {
        runas(s, pos)
    }

    proof fn lemma_grammar(s: Seq<char>, pos: int) {
        lemma_syntax('(', s, pos);
        match syntax('(', s, pos) {
            Outcome::Accept(_, p) => {
                lemma_maybe_list::<Spec<UserSpecifier>>(s, p);
                match maybe_list::<Spec<UserSpecifier>>(s, p) {
                    Outcome::Accept(users, q) => {
                        lemma_syntax(':', s, q);
                        match optional_syntax(':', s, q) {
                            Outcome::Accept(colon, q1) => {
                                lemma_maybe_list::<Spec<Identifier>>(s, q1);
                                let g = if colon {
                                    maybe_list::<Spec<Identifier>>(s, q1)
                                } else {
                                    Outcome::Accept(Seq::empty(), q1)
                                };
                                match g {
                                    Outcome::Accept(_, q2) => {
                                        lemma_syntax(')', s, q2);
                                    },
                                    _ => {},
                                }
                            },
                            _ => {},
                        }
                    },
                    _ => {},
                }
            },
            _ => {},
        }
    }

    fn parse(s: &Vec<char>, pos: usize) -> (r: Parsed<Self>) {
        let (_, p) = try_syntax('(', s, pos)?;
        let (users, q) = parse_maybe_list::<Spec<UserSpecifier>>(s, p)?;
        let (colon, q1) = is_syntax(':', s, q)?;
        let (groups, q2) = if colon {
            parse_maybe_list::<Spec<Identifier>>(s, q1)?
        } else {
            let v: Vec<Spec<Identifier>> = Vec::new();
            assert(v.deep_view() =~= Seq::<SpecView<IdentifierView>>::empty());
            (v, q1)
        };
        let (_, e) = expect_syntax(')', s, q2)?;
        Ok((RunAs { users, groups }, e))
    }
}

/// What a word in upper case before a command is.
#[derive(Debug, Clone, PartialEq, Eq)]
pub enum Keyword {
    /// `NOPASSWD:` or `TIMEOUT=n`.
    Tag(Tag),
    /// `NOEXEC:`, which is read and attaches nothing: the policy has no
    /// attribute for it.
    NoExec,
    /// `ALL`, which stands for every command.
    All,
    /// The name of an alias for commands.
    Alias(String),
}

/// The model of [`Keyword`].
pub enum KeywordView {
    Tag(Tag),
    NoExec,
    All,
    Alias(Seq<char>),
}

impl DeepView for Keyword {
    type V = KeywordView;

    open spec fn deep_view(&self) -> KeywordView {
        match self {
            Keyword::Tag(t) => KeywordView::Tag(*t),
            Keyword::NoExec => KeywordView::NoExec,
            Keyword::All => KeywordView::All,
            Keyword::Alias(a) => KeywordView::Alias(a@),
        }
    }
}

/// A number of seconds behind `TIMEOUT=`: digits that denote at most `i32::MAX`.
pub open spec fn timeout(s: Seq<char>, pos: int) -> Outcome<Tag> {
    match token(TokenClass::Digits, s, pos).required(pos) {
        Outcome::Accept(t, p) => if number(t) > i32::MAX {
            Outcome::Fatal(Fault::NumberTooLarge, pos)
        } else {
            Outcome::Accept(Tag::Timeout(number(t) as i32), p)
        },
        Outcome::Reject => Outcome::Reject,
        Outcome::Fatal(f, p) => Outcome::Fatal(f, p),
    }
}

/// A word in upper case before a command: a tag with its `:` or `=`, `ALL`, or
/// the name of an alias.
pub open spec fn keyword(s: Seq<char>, pos: int) -> Outcome<KeywordView> {
    match token(TokenClass::Upper, s, pos) {
        Outcome::Accept(word, p) => {
            if word == "NOPASSWD"@ {
                match required_syntax(':', s, p) {
                    Outcome::Accept(_, e) => Outcome::Accept(KeywordView::Tag(Tag::NoPasswd), e),
                    Outcome::Reject => Outcome::Reject,
                    Outcome::Fatal(f, e) => Outcome::Fatal(f, e),
                }
            } else if word == "NOEXEC"@ {
                match required_syntax(':', s, p) {
                    Outcome::Accept(_, e) => Outcome::Accept(KeywordView::NoExec, e),
                    Outcome::Reject => Outcome::Reject,
                    Outcome::Fatal(f, e) => Outcome::Fatal(f, e),
                }
            } else if word == "TIMEOUT"@ {
                match required_syntax('=', s, p) {
                    Outcome::Accept(_, q) => match timeout(s, q) {
                        Outcome::Accept(t, e) => Outcome::Accept(KeywordView::Tag(t), e),
                        Outcome::Reject => Outcome::Reject,
                        Outcome::Fatal(f, e) => Outcome::Fatal(f, e),
                    },
                    Outcome::Reject => Outcome::Reject,
                    Outcome::Fatal(f, e) => Outcome::Fatal(f, e),
                }
            } else if word == "ALL"@ {
                Outcome::Accept(KeywordView::All, p)
            } else {
                Outcome::Accept(KeywordView::Alias(word), p)
            }
        },
        Outcome::Reject => Outcome::Reject,
        Outcome::Fatal(f, p) => Outcome::Fatal(f, p),
    }
}

/// A keyword is read inside the text and is not empty.
pub proof fn lemma_keyword(s: Seq<char>, pos: int)
    requires
        0 <= pos <= s.len(),
    ensures
        keyword(s, pos).within(s, pos),
        keyword(s, pos) matches Outcome::Accept(_, p) ==> pos < p,
{
    lemma_token(TokenClass::Upper, s, pos);
    match token(TokenClass::Upper, s, pos) {
        Outcome::Accept(word, p) => {
            lemma_syntax(':', s, p);
            lemma_syntax('=', s, p);
            match required_syntax('=', s, p) {
                Outcome::Accept(_, q) => {
                    lemma_token(TokenClass::Digits, s, q);
                },
                _ => {},
            }
        },
        _ => {},
    }
}

fn parse_timeout(s: &Vec<char>, pos: usize) -> (r: Parsed<Tag>)
    requires
        pos <= s.len(),
    ensures
        outcome(r) == timeout(s@, pos as int),
        outcome(r).within(s@, pos as int),
{
    let (t, p) = expect(scan(TokenClass::Digits, s, pos), pos)?;
    assert(t@.subrange(0, t.len() as int) == t@);
    assert(t.deep_view() =~= t@);
    match number_of(&t, 0, t.len()) {
        Some(n) => {
            if n > 0x7fff_ffff {
                Err(Status::Fatal(Fault::NumberTooLarge, pos))
            } else {
                Ok((Tag::Timeout(n as i32), p))
            }
        },
        None => Err(Status::Fatal(Fault::NumberTooLarge, pos)),
    }
}

/// Reads a word in upper case before a command.
pub fn parse_keyword(s: &Vec<char>, pos: usize) -> (r: Parsed<Keyword>)
    requires
        pos <= s.len(),
    ensures
        outcome(r) == keyword(s@, pos as int),
        outcome(r).within(s@, pos as int),
        r matches Ok((_, p)) ==> pos < p,
{
    proof {
        lemma_keyword(s@, pos as int);
    }
    let (word, p) = scan(TokenClass::Upper, s, pos)?;
    assert(word.deep_view() =~= word@);
    if spells(&word, "NOPASSWD") {
        let (_, e) = expect_syntax(':', s, p)?;
        Ok((Keyword::Tag(Tag::NoPasswd), e))
    } else if spells(&word, "NOEXEC") {
        let (_, e) = expect_syntax(':', s, p)?;
        Ok((Keyword::NoExec, e))
    } else if spells(&word, "TIMEOUT") {
        let (_, q) = expect_syntax('=', s, p)?;
        let (t, e) = parse_timeout(s, q)?;
        Ok((Keyword::Tag(t), e))
    } else if spells(&word, "ALL") {
        Ok((Keyword::All, p))
    } else {
        Ok((Keyword::Alias(from_chars(&word)), p))
    }
}

/// A command behind the tags in `tags`, which were read up to `pos`: more
/// keywords, then the command itself unless `ALL` or an alias ended the run.
pub open spec fn tagged(s: Seq<char>, pos: int, tags: Seq<Tag>) -> Outcome<CommandSpecView>
    recommends
        0 <= pos <= s.len(),
    decreases s.len() - pos,
{
    match keyword(s, pos) {
        Outcome::Accept(k, p) => {
            proof {
                lemma_token(TokenClass::Upper, s, pos);
                lemma_keyword(s, pos);
            }
            match k {
                KeywordView::Tag(t) => {
                    if tags.len() >= LIST_LIMIT {
                        Outcome::Fatal(Fault::TooManyTags, p)
                    } else {
                        tagged(s, p, tags.push(t))
                    }
                },
                KeywordView::NoExec => tagged(s, p, tags),
                KeywordView::All => Outcome::Accept(
                    CommandSpecView(tags, Qualified::Allow(MetaView::All)),
                    p,
                ),
                KeywordView::Alias(a) => Outcome::Accept(
                    CommandSpecView(tags, Qualified::Allow(MetaView::Alias(a))),
                    p,
                ),
            }
        },
        Outcome::Reject => match qualified::<Meta<Command>>(s, pos).required(pos) {
            Outcome::Accept(c, p) => Outcome::Accept(CommandSpecView(tags, c), p),
            Outcome::Reject => Outcome::Reject,
            Outcome::Fatal(f, p) => Outcome::Fatal(f, p),
        },
        Outcome::Fatal(f, p) => Outcome::Fatal(f, p),
    }
}

/// ```text
/// commandspec = [tags]*, command
/// ```
pub open spec fn command_spec(s: Seq<char>, pos: int) -> Outcome<CommandSpecView> {
    tagged(s, pos, Seq::empty())
}

/// A command with its tags is read inside the text and is never rejected.
pub proof fn lemma_tagged(s: Seq<char>, pos: int, tags: Seq<Tag>)
    requires
        0 <= pos <= s.len(),
    ensures
        tagged(s, pos, tags).within(s, pos),
        !(tagged(s, pos, tags) is Reject),
    decreases s.len() - pos,
{
    lemma_keyword(s, pos);
    match keyword(s, pos) {
        Outcome::Accept(k, p) => {
            match k {
                KeywordView::Tag(t) => {
                    if tags.len() < LIST_LIMIT {
                        lemma_tagged(s, p, tags.push(t));
                    }
                },
                KeywordView::NoExec => {
                    lemma_tagged(s, p, tags);
                },
                _ => {},
            }
        },
        Outcome::Reject => {
            Qualified::<Meta<Command>>::lemma_grammar(s, pos);
        },
        _ => {},
    }
}

impl Parse for CommandSpec {
    open spec fn grammar(s: Seq<char>, pos: int) -> Outcome<CommandSpecView> {
        command_spec(s, pos)
    }

    proof fn lemma_grammar(s: Seq<char>, pos: int) {
        lemma_tagged(s, pos, Seq::empty());
    }

    fn parse(s: &Vec<char>, pos: usize) -> (r: Parsed<Self>) {
        let mut tags: Vec<Tag> = Vec::new();
        let mut here = pos;
        loop
            invariant
                pos <= here <= s.len(),
                tagged(s@, here as int, tags@) == tagged(s@, pos as int, Seq::empty()),
            decreases s.len() - here,
        {
            match parse_keyword(s, here) {
                Ok((Keyword::Tag(t), p)) => {
                    if tags.len() >= LIST_LIMIT {
                        return Err(Status::Fatal(Fault::TooManyTags, p));
                    }
                    tags.push(t);
                    here = p;
                },
                Ok((Keyword::NoExec, p)) => {
                    here = p;
                },
                Ok((Keyword::All, p)) => {
                    return Ok((CommandSpec(tags, Qualified::Allow(Meta::All)), p));
                },
                Ok((Keyword::Alias(a), p)) => {
                    return Ok((CommandSpec(tags, Qualified::Allow(Meta::Alias(a))), p));
                },
                Err(Status::Reject) => {
                    let (cmd, p) = expect(Qualified::<Meta<Command>>::parse(s, here), here)?;
                    return Ok((CommandSpec(tags, cmd), p));
                },
                Err(e) => {
                    return Err(e);
                },
            }
        }
    }
}

/// One `hosts = (runas) commands` part of a permission line.
pub type Grant = (SpecList<Hostname>, Option<RunAs>, Vec<CommandSpec>);

/// ```text
/// (host,runas,commandspec) = hostlist, "=", runas?, commandspec
/// ```
pub open spec fn grant(s: Seq<char>, pos: int) -> Outcome<GrantView> {
    match list::<Spec<Hostname>>(',', LIST_LIMIT as nat, s, pos) {
        Outcome::Accept(hosts, p) => match required_syntax('=', s, p) {
            Outcome::Accept(_, q) => match runas(s, q).optional(q) {
                Outcome::Accept(run, q1) => match list::<CommandSpec>(
                    ',',
                    LIST_LIMIT as nat,
                    s,
                    q1,
                ).required(q1) {
                    Outcome::Accept(cmds, e) => Outcome::Accept((hosts, run, cmds), e),
                    Outcome::Reject => Outcome::Reject,
                    Outcome::Fatal(f, e) => Outcome::Fatal(f, e),
                },
                Outcome::Reject => Outcome::Reject,
                Outcome::Fatal(f, e) => Outcome::Fatal(f, e),
            },
            Outcome::Reject => Outcome::Reject,
            Outcome::Fatal(f, e) => Outcome::Fatal(f, e),
        },
        Outcome::Reject => Outcome::Reject,
        Outcome::Fatal(f, p) => Outcome::Fatal(f, p),
    }
}

impl Parse for Grant {
    open spec fn grammar(s: Seq<char>, pos: int) -> Outcome<GrantView> {
        grant(s, pos)
    }

    proof fn lemma_grammar(s: Seq<char>, pos: int) {
        lemma_list::<Spec<Hostname>>(',', LIST_LIMIT as nat, s, pos);
        match list::<Spec<Hostname>>(',', LIST_LIMIT as nat, s, pos) {
            Outcome::Accept(hosts, p) => {
                lemma_syntax('=', s, p);
                match required_syntax('=', s, p) {
                    Outcome::Accept(_, q) => {
                        RunAs::lemma_grammar(s, q);
                        match runas(s, q).optional(q) {
                            Outcome::Accept(run, q1) => {
                                lemma_list::<CommandSpec>(',', LIST_LIMIT as nat, s, q1);
                            },
                            _ => {},
                        }
                    },
                    _ => {},
                }
            },
            _ => {},
        }
    }

    fn parse(s: &Vec<char>, pos: usize) -> (r: Parsed<Self>) {
        let (hosts, p) = parse_list::<Spec<Hostname>>(',', LIST_LIMIT, s, pos)?;
        let (_, q) = expect_syntax('=', s, p)?;
        let (run, q1) = maybe(RunAs::parse(s, q), q)?;
        let (cmds, e) = expect(parse_list::<CommandSpec>(',', LIST_LIMIT, s, q1), q1)?;
        Ok(((hosts, run, cmds), e))
    }
}

/// The permission parts of a line, separated by colons.
pub open spec fn grants(s: Seq<char>, pos: int) -> Outcome<Seq<GrantView>> {
    list::<Grant>(':', LIST_LIMIT as nat, s, pos).required(pos)
}

/// ```text
/// permissionspec = userlist, (host, runas, commandspec), [ ":", (host, runas, commandspec) ]*
/// ```
pub open spec fn permission_spec(s: Seq<char>, pos: int) -> Outcome<PermissionSpecView> {
    match list::<Spec<UserSpecifier>>(',', LIST_LIMIT as nat, s, pos) {
        Outcome::Accept(users, p) => match grants(s, p) {
            Outcome::Accept(permissions, e) => Outcome::Accept(
                PermissionSpecView { users, permissions },
                e,
            ),
            Outcome::Reject => Outcome::Reject,
            Outcome::Fatal(f, e) => Outcome::Fatal(f, e),
        },
        Outcome::Reject => Outcome::Reject,
        Outcome::Fatal(f, p) => Outcome::Fatal(f, p),
    }
}

/// Reads the permission parts of a line, of which there is at least one.
pub fn parse_grants(s: &Vec<char>, pos: usize) -> (r: Parsed<Vec<Grant>>)
    requires
        pos <= s.len(),
    ensures
        outcome(r) == grants(s@, pos as int),
        outcome(r).within(s@, pos as int),
{
    expect(parse_list::<Grant>(':', LIST_LIMIT, s, pos), pos)
}

impl Parse for PermissionSpec {
    open spec fn grammar(s: Seq<char>, pos: int) -> Outcome<PermissionSpecView> {
        permission_spec(s, pos)
    }

    proof fn lemma_grammar(s: Seq<char>, pos: int) {
        lemma_list::<Spec<UserSpecifier>>(',', LIST_LIMIT as nat, s, pos);
        match list::<Spec<UserSpecifier>>(',', LIST_LIMIT as nat, s, pos) {
            Outcome::Accept(users, p) => {
                lemma_list::<Grant>(':', LIST_LIMIT as nat, s, p);
            },
            _ => {},
        }
    }

    fn parse(s: &Vec<char>, pos: usize) -> (r: Parsed<Self>) {
        let (users, p) = parse_list::<Spec<UserSpecifier>>(',', LIST_LIMIT, s, pos)?;
        let (permissions, e) = parse_grants(s, p)?;
        Ok((PermissionSpec { users, permissions }, e))
    }
}

/// The settings that hold a list.
pub open spec fn known_list(name: Seq<char>) -> bool {
    name == "env_keep"@ || name == "env_check"@ || name == "env_delete"@
}

/// The settings that hold a text.
pub open spec fn known_text(name: Seq<char>) -> bool {
    name == "secure_path"@ || name == "lecture_file"@
}

fn is_known_list(name: &Vec<char>) -> (r: bool)
    ensures
        r == known_list(name@),
{
    spells(name, "env_keep") || spells(name, "env_check") || spells(name, "env_delete")
}

fn is_known_text(name: &Vec<char>) -> (r: bool)
    ensures
        r == known_text(name@),
{
    spells(name, "secure_path") || spells(name, "lecture_file")
}

/// Whether the setting can be switched on and off: every setting that is not
/// known to hold a list or a text.
pub fn is_bool_param(name: &str) -> (r: bool)
    ensures
        r == (!known_list(name@) && !known_text(name@)),
{
    let n = crate::text::to_chars(name);
    !is_known_list(&n) && !is_known_text(&n)
}

/// Whether the setting can hold a number: no setting is known to, so every
/// setting that is not known to hold a list or a text.
pub fn is_int_param(name: &str) -> (r: bool)
    ensures
        r == (!known_list(name@) && !known_text(name@)),
{
    let n = crate::text::to_chars(name);
    !is_known_list(&n) && !is_known_text(&n)
}

/// Whether the setting can hold a text: every setting that is not known to hold
/// a list.
pub fn is_string_param(name: &str) -> (r: bool)
    ensures
        r == !known_list(name@),
{
    let n = crate::text::to_chars(name);
    !is_known_list(&n)
}

/// Whether the setting can hold a list: every setting that is not known to hold
/// a text.
pub fn is_list_param(name: &str) -> (r: bool)
    ensures
        r == !known_text(name@),
{
    let n = crate::text::to_chars(name);
    !is_known_text(&n)
}

/// The double quote that closes a quoted text, and the space behind it.
pub open spec fn closing_quote(s: Seq<char>, pos: int) -> Outcome<()> {
    match syntax('"', s, pos) {
        Outcome::Reject => Outcome::Fatal(Fault::UnterminatedQuote, pos),
        o => o,
    }
}

fn expect_quote(s: &Vec<char>, pos: usize) -> (r: Parsed<()>)
    requires
        pos <= s.len(),
    ensures
        outcome(r) == closing_quote(s@, pos as int),
        outcome(r).within(s@, pos as int),
{
    match try_syntax('"', s, pos) {
        Err(Status::Reject) => Err(Status::Fatal(Fault::UnterminatedQuote, pos)),
        other => other,
    }
}

/// The names between the quotes of a list setting, behind those in `sofar`:
/// each may be followed by a comma. A name with a value is refused.
pub open spec fn names(s: Seq<char>, pos: int, sofar: Seq<Seq<char>>) -> Outcome<Seq<Seq<char>>>
    recommends
        0 <= pos <= s.len(),
    decreases s.len() - pos,
{
    match token(TokenClass::EnvVar, s, pos) {
        Outcome::Accept(name, p) => {
            if 0 <= p < s.len() && s[p] == '=' {
                Outcome::Fatal(Fault::ValueInList, p)
            } else {
                match optional_syntax(',', s, p) {
                    Outcome::Accept(_, q) => {
                        proof {
                            lemma_token(TokenClass::EnvVar, s, pos);
                            lemma_syntax(',', s, p);
                        }
                        names(s, q, sofar.push(name))
                    },
                    Outcome::Reject => Outcome::Reject,
                    Outcome::Fatal(f, q) => Outcome::Fatal(f, q),
                }
            }
        },
        Outcome::Reject => Outcome::Accept(sofar, pos),
        Outcome::Fatal(f, p) => Outcome::Fatal(f, p),
    }
}

/// The value of a list setting: one bare name, or names between double quotes.
pub open spec fn vars(s: Seq<char>, pos: int) -> Outcome<Seq<Seq<char>>> {
    if 0 <= pos < s.len() && s[pos] == '"' {
        match names(s, pos + 1, Seq::empty()) {
            Outcome::Accept(v, p) => match closing_quote(s, p) {
                Outcome::Accept(_, e) => if v.len() == 0 {
                    Outcome::Fatal(Fault::EmptyList, e)
                } else {
                    Outcome::Accept(v, e)
                },
                Outcome::Reject => Outcome::Reject,
                Outcome::Fatal(f, e) => Outcome::Fatal(f, e),
            },
            Outcome::Reject => Outcome::Reject,
            Outcome::Fatal(f, p) => Outcome::Fatal(f, p),
        }
    } else {
        match token(TokenClass::EnvVar, s, pos).required(pos) {
            Outcome::Accept(name, p) => Outcome::Accept(seq![name], p),
            Outcome::Reject => Outcome::Reject,
            Outcome::Fatal(f, p) => Outcome::Fatal(f, p),
        }
    }
}

/// The names of a list are read inside the text and are never rejected.
pub proof fn lemma_names(s: Seq<char>, pos: int, sofar: Seq<Seq<char>>)
    requires
        0 <= pos <= s.len(),
    ensures
        names(s, pos, sofar).within(s, pos),
        !(names(s, pos, sofar) is Reject),
    decreases s.len() - pos,
{
    lemma_token(TokenClass::EnvVar, s, pos);
    match token(TokenClass::EnvVar, s, pos) {
        Outcome::Accept(name, p) => {
            lemma_syntax(',', s, p);
            match optional_syntax(',', s, p) {
                Outcome::Accept(_, q) => {
                    lemma_names(s, q, sofar.push(name));
                },
                _ => {},
            }
        },
        _ => {},
    }
}

/// The value of a list setting is read inside the text and is never rejected.
pub proof fn lemma_vars(s: Seq<char>, pos: int)
    requires
        0 <= pos <= s.len(),
    ensures
        vars(s, pos).within(s, pos),
        !(vars(s, pos) is Reject),
{
    lemma_token(TokenClass::EnvVar, s, pos);
    if pos < s.len() {
        lemma_names(s, pos + 1, Seq::empty());
        match names(s, pos + 1, Seq::empty()) {
            Outcome::Accept(v, p) => {
                lemma_syntax('"', s, p);
            },
            _ => {},
        }
    }
}

fn parse_vars(s: &Vec<char>, pos: usize) -> (r: Parsed<Vec<String>>)
    requires
        pos <= s.len(),
    ensures
        outcome(r) == vars(s@, pos as int),
        outcome(r).within(s@, pos as int),
{
    proof {
        lemma_vars(s@, pos as int);
    }
    if at('"', s, pos) {
        let mut result: Vec<String> = Vec::new();
        let mut here = pos + 1;
        assert(result.deep_view() =~= Seq::<Seq<char>>::empty());
        loop
            invariant
                pos < here <= s.len(),
                s@[pos as int] == '"',
                names(s@, here as int, result.deep_view()) == names(
                    s@,
                    (pos + 1) as int,
                    Seq::empty(),
                ),
            decreases s.len() - here,
        {
            proof {
                lemma_token(TokenClass::EnvVar, s@, here as int);
            }
            match scan(TokenClass::EnvVar, s, here) {
                Ok((name, p)) => {
                    assert(name.deep_view() =~= name@);
                    if at('=', s, p) {
                        return Err(Status::Fatal(Fault::ValueInList, p));
                    }
                    proof {
                        lemma_syntax(',', s@, p as int);
                    }
                    let (_, q) = is_syntax(',', s, p)?;
                    let ghost before = result.deep_view();
                    let text = from_chars(&name);
                    result.push(text);
                    assert(result.deep_view() =~= before.push(name@));
                    here = q;
                },
                Err(Status::Reject) => {
                    let (_, e) = expect_quote(s, here)?;
                    if result.len() == 0 {
                        return Err(Status::Fatal(Fault::EmptyList, e));
                    }
                    return Ok((result, e));
                },
                Err(e) => {
                    return Err(e);
                },
            }
        }
    } else {
        let (name, p) = expect(scan(TokenClass::EnvVar, s, pos), pos)?;
        assert(name.deep_view() =~= name@);
        let mut result: Vec<String> = Vec::new();
        result.push(from_chars(&name));
        assert(result.deep_view() =~= seq![name@]);
        Ok((result, p))
    }
}

/// The value of a text setting: a quoted text, or a bare word.
pub open spec fn text_value(s: Seq<char>, pos: int) -> Outcome<Seq<char>> {
    if 0 <= pos < s.len() && s[pos] == '"' {
        match token(TokenClass::QuotedText, s, pos + 1).required(pos + 1) {
            Outcome::Accept(t, p) => match closing_quote(s, p) {
                Outcome::Accept(_, e) => Outcome::Accept(t, e),
                Outcome::Reject => Outcome::Reject,
                Outcome::Fatal(f, e) => Outcome::Fatal(f, e),
            },
            Outcome::Reject => Outcome::Reject,
            Outcome::Fatal(f, p) => Outcome::Fatal(f, p),
        }
    } else {
        token(TokenClass::StringParameter, s, pos).required(pos)
    }
}

/// The value of a text setting is read inside the text and is never rejected.
pub proof fn lemma_text_value(s: Seq<char>, pos: int)
    requires
        0 <= pos <= s.len(),
    ensures
        text_value(s, pos).within(s, pos),
        !(text_value(s, pos) is Reject),
{
    lemma_token(TokenClass::StringParameter, s, pos);
    if pos < s.len() {
        lemma_token(TokenClass::QuotedText, s, pos + 1);
        match token(TokenClass::QuotedText, s, pos + 1) {
            Outcome::Accept(t, p) => {
                lemma_syntax('"', s, p);
            },
            _ => {},
        }
    }
}

fn parse_text_value(s: &Vec<char>, pos: usize) -> (r: Parsed<String>)
    requires
        pos <= s.len(),
    ensures
        outcome(r) == text_value(s@, pos as int),
        outcome(r).within(s@, pos as int),
{
    proof {
        lemma_text_value(s@, pos as int);
    }
    if at('"', s, pos) {
        let (t, p) = expect(scan(TokenClass::QuotedText, s, pos + 1), pos + 1)?;
        assert(t.deep_view() =~= t@);
        let (_, e) = expect_quote(s, p)?;
        Ok((from_chars(&t), e))
    } else {
        let (t, p) = expect(scan(TokenClass::StringParameter, s, pos), pos)?;
        assert(t.deep_view() =~= t@);
        Ok((from_chars(&t), p))
    }
}

/// A setting that is switched on or off; `pos` lies behind its name.
pub open spec fn flag_setting(name: Seq<char>, value: bool, pos: int) -> Outcome<DirectiveView> {
    if !known_list(name) && !known_text(name) {
        Outcome::Accept(DirectiveView::Defaults(name, DefaultValueView::Flag(value)), pos)
    } else {
        Outcome::Fatal(Fault::NotBoolean, pos)
    }
}

/// What follows the `+` or `-` of a list setting: `=` and the entries.
pub open spec fn list_setting(mode: Mode, name: Seq<char>, s: Seq<char>, pos: int) -> Outcome<
    DirectiveView,
> {
    match required_syntax('=', s, pos) {
        Outcome::Accept(_, p) => if known_text(name) {
            Outcome::Fatal(Fault::NotList, p)
        } else {
            match vars(s, p) {
                Outcome::Accept(v, e) => Outcome::Accept(
                    DirectiveView::Defaults(name, DefaultValueView::List(mode, v)),
                    e,
                ),
                Outcome::Reject => Outcome::Reject,
                Outcome::Fatal(f, e) => Outcome::Fatal(f, e),
            }
        },
        Outcome::Reject => Outcome::Reject,
        Outcome::Fatal(f, p) => Outcome::Fatal(f, p),
    }
}

/// What follows the `=` of a setting: entries for a list, else a text.
pub open spec fn assigned_setting(name: Seq<char>, s: Seq<char>, pos: int) -> Outcome<
    DirectiveView,
> {
    if !known_text(name) {
        match vars(s, pos) {
            Outcome::Accept(v, e) => Outcome::Accept(
                DirectiveView::Defaults(name, DefaultValueView::List(Mode::Assign, v)),
                e,
            ),
            Outcome::Reject => Outcome::Reject,
            Outcome::Fatal(f, e) => Outcome::Fatal(f, e),
        }
    } else {
        match text_value(s, pos) {
            Outcome::Accept(t, e) => Outcome::Accept(
                DirectiveView::Defaults(name, DefaultValueView::Text(t)),
                e,
            ),
            Outcome::Reject => Outcome::Reject,
            Outcome::Fatal(f, e) => Outcome::Fatal(f, e),
        }
    }
}

/// What follows the name of a setting.
pub open spec fn named_setting(name: Seq<char>, s: Seq<char>, pos: int) -> Outcome<DirectiveView> {
    match optional_syntax('+', s, pos) {
        Outcome::Accept(true, p) => list_setting(Mode::Add, name, s, p),
        Outcome::Accept(false, _) => match optional_syntax('-', s, pos) {
            Outcome::Accept(true, p) => list_setting(Mode::Del, name, s, p),
            Outcome::Accept(false, _) => match optional_syntax('=', s, pos) {
                Outcome::Accept(true, p) => assigned_setting(name, s, p),
                Outcome::Accept(false, _) => flag_setting(name, true, pos),
                Outcome::Reject => Outcome::Reject,
                Outcome::Fatal(f, p) => Outcome::Fatal(f, p),
            },
            Outcome::Reject => Outcome::Reject,
            Outcome::Fatal(f, p) => Outcome::Fatal(f, p),
        },
        Outcome::Reject => Outcome::Reject,
        Outcome::Fatal(f, p) => Outcome::Fatal(f, p),
    }
}

/// ```text
/// Defaults name | !name | name=value | name+=list | name-=list
/// ```
pub open spec fn setting(s: Seq<char>, pos: int) -> Outcome<DirectiveView> {
    match optional_syntax('!', s, pos) {
        Outcome::Accept(true, p) => match token(TokenClass::EnvVar, s, p).required(p) {
            Outcome::Accept(name, q) => flag_setting(name, false, q),
            Outcome::Reject => Outcome::Reject,
            Outcome::Fatal(f, q) => Outcome::Fatal(f, q),
        },
        Outcome::Accept(false, _) => match token(TokenClass::EnvVar, s, pos) {
            Outcome::Accept(name, p) => named_setting(name, s, p),
            Outcome::Reject => Outcome::Reject,
            Outcome::Fatal(f, p) => Outcome::Fatal(f, p),
        },
        Outcome::Reject => Outcome::Reject,
        Outcome::Fatal(f, p) => Outcome::Fatal(f, p),
    }
}

/// A list setting is read inside the text and is never rejected.
pub proof fn lemma_list_setting(mode: Mode, name: Seq<char>, s: Seq<char>, pos: int)
    requires
        0 <= pos <= s.len(),
    ensures
        list_setting(mode, name, s, pos).within(s, pos),
        !(list_setting(mode, name, s, pos) is Reject),
{
    lemma_syntax('=', s, pos);
    match required_syntax('=', s, pos) {
        Outcome::Accept(_, p) => {
            lemma_vars(s, p);
        },
        _ => {},
    }
}

/// What follows the name of a setting is read inside the text and is never
/// rejected.
pub proof fn lemma_named_setting(name: Seq<char>, s: Seq<char>, pos: int)
    requires
        0 <= pos <= s.len(),
    ensures
        named_setting(name, s, pos).within(s, pos),
        !(named_setting(name, s, pos) is Reject),
{
    lemma_syntax('+', s, pos);
    lemma_syntax('-', s, pos);
    lemma_syntax('=', s, pos);
    match optional_syntax('+', s, pos) {
        Outcome::Accept(true, p) => {
            lemma_list_setting(Mode::Add, name, s, p);
        },
        _ => {},
    }
    match optional_syntax('-', s, pos) {
        Outcome::Accept(true, p) => {
            lemma_list_setting(Mode::Del, name, s, p);
        },
        _ => {},
    }
    match optional_syntax('=', s, pos) {
        Outcome::Accept(true, p) => {
            lemma_vars(s, p);
            lemma_text_value(s, p);
        },
        _ => {},
    }
}

/// A setting is read inside the text.
pub proof fn lemma_setting(s: Seq<char>, pos: int)
    requires
        0 <= pos <= s.len(),
    ensures
        setting(s, pos).within(s, pos),
{
    lemma_syntax('!', s, pos);
    lemma_token(TokenClass::EnvVar, s, pos);
    match optional_syntax('!', s, pos) {
        Outcome::Accept(true, p) => {
            lemma_token(TokenClass::EnvVar, s, p);
        },
        _ => {},
    }
    match token(TokenClass::EnvVar, s, pos) {
        Outcome::Accept(name, p) => {
            lemma_named_setting(name, s, p);
        },
        _ => {},
    }
}

fn parse_flag_setting(name: String, value: bool, pos: usize) -> (r: Parsed<Directive>)
    ensures
        outcome(r) == flag_setting(name@, value, pos as int),
{
    if is_bool_param(name.as_str()) {
        Ok((Directive::Defaults(name, DefaultValue::Flag(value)), pos))
    } else {
        Err(Status::Fatal(Fault::NotBoolean, pos))
    }
}

fn parse_list_setting(mode: Mode, name: String, s: &Vec<char>, pos: usize) -> (r: Parsed<Directive>)
    requires
        pos <= s.len(),
    ensures
        outcome(r) == list_setting(mode, name@, s@, pos as int),
        outcome(r).within(s@, pos as int),
{
    proof {
        lemma_list_setting(mode, name@, s@, pos as int);
    }
    let (_, p) = expect_syntax('=', s, pos)?;
    if !is_list_param(name.as_str()) {
        return Err(Status::Fatal(Fault::NotList, p));
    }
    let (items, e) = parse_vars(s, p)?;
    Ok((Directive::Defaults(name, DefaultValue::List(mode, items)), e))
}

fn parse_assigned_setting(name: String, s: &Vec<char>, pos: usize) -> (r: Parsed<Directive>)
    requires
        pos <= s.len(),
    ensures
        outcome(r) == assigned_setting(name@, s@, pos as int),
        outcome(r).within(s@, pos as int),
{
    if is_list_param(name.as_str()) {
        let (items, e) = parse_vars(s, pos)?;
        Ok((Directive::Defaults(name, DefaultValue::List(Mode::Assign, items)), e))
    } else {
        let (text, e) = parse_text_value(s, pos)?;
        Ok((Directive::Defaults(name, DefaultValue::Text(text)), e))
    }
}

/// Reads what follows `Defaults`.
pub fn parse_default(s: &Vec<char>, pos: usize) -> (r: Parsed<Directive>)
    requires
        pos <= s.len(),
    ensures
        outcome(r) == setting(s@, pos as int),
        outcome(r).within(s@, pos as int),
{
    proof {
        lemma_setting(s@, pos as int);
    }
    let (bang, p) = is_syntax('!', s, pos)?;
    if bang {
        let (word, q) = expect(scan(TokenClass::EnvVar, s, p), p)?;
        assert(word.deep_view() =~= word@);
        parse_flag_setting(from_chars(&word), false, q)
    } else {
        let (word, p) = scan(TokenClass::EnvVar, s, pos)?;
        assert(word.deep_view() =~= word@);
        let name = from_chars(&word);
        let (plus, q) = is_syntax('+', s, p)?;
        if plus {
            return parse_list_setting(Mode::Add, name, s, q);
        }
        let (minus, q) = is_syntax('-', s, p)?;
        if minus {
            return parse_list_setting(Mode::Del, name, s, q);
        }
        let (equals, q) = is_syntax('=', s, p)?;
        if equals {
            return parse_assigned_setting(name, s, q);
        }
        parse_flag_setting(name, true, p)
    }
}

/// The name of an alias and, behind `=`, what it stands for.
pub open spec fn alias_body<M: Parse>(s: Seq<char>, pos: int) -> Outcome<
    (Seq<char>, Seq<Qualified<M::V>>),
> {
    match token(TokenClass::Upper, s, pos).required(pos) {
        Outcome::Accept(name, p) => match required_syntax('=', s, p) {
            Outcome::Accept(_, q) => match list::<Qualified<M>>(
                ',',
                LIST_LIMIT as nat,
                s,
                q,
            ).required(q) {
                Outcome::Accept(items, e) => Outcome::Accept((name, items), e),
                Outcome::Reject => Outcome::Reject,
                Outcome::Fatal(f, e) => Outcome::Fatal(f, e),
            },
            Outcome::Reject => Outcome::Reject,
            Outcome::Fatal(f, q) => Outcome::Fatal(f, q),
        },
        Outcome::Reject => Outcome::Reject,
        Outcome::Fatal(f, p) => Outcome::Fatal(f, p),
    }
}

/// The definition of an alias is read inside the text and is never rejected.
pub proof fn lemma_alias_body<M: Parse>(s: Seq<char>, pos: int)
    requires
        0 <= pos <= s.len(),
    ensures
        alias_body::<M>(s, pos).within(s, pos),
        !(alias_body::<M>(s, pos) is Reject),
{
    lemma_token(TokenClass::Upper, s, pos);
    match token(TokenClass::Upper, s, pos) {
        Outcome::Accept(name, p) => {
            lemma_syntax('=', s, p);
            match required_syntax('=', s, p) {
                Outcome::Accept(_, q) => {
                    lemma_list::<Qualified<M>>(',', LIST_LIMIT as nat, s, q);
                },
                _ => {},
            }
        },
        _ => {},
    }
}

fn parse_alias_body<M: Parse>(s: &Vec<char>, pos: usize) -> (r: Parsed<(String, Vec<Qualified<M>>)>)
    requires
        pos <= s.len(),
    ensures
        outcome(r) == alias_body::<M>(s@, pos as int),
        outcome(r).within(s@, pos as int),
{
    proof {
        lemma_alias_body::<M>(s@, pos as int);
    }
    let (name, p) = expect(scan(TokenClass::Upper, s, pos), pos)?;
    assert(name.deep_view() =~= name@);
    let (_, q) = expect_syntax('=', s, p)?;
    let (items, e) = expect(parse_list::<Qualified<M>>(',', LIST_LIMIT, s, q), q)?;
    Ok(((from_chars(&name), items), e))
}

/// The directive that the keyword `key` begins, read from behind the keyword.
/// A word that is no directive keyword is rejected.
pub open spec fn directive(key: Seq<char>, s: Seq<char>, pos: int) -> Outcome<DirectiveView> {
    if key == "User_Alias"@ {
        match alias_body::<Meta<UserSpecifier>>(s, pos) {
            Outcome::Accept((name, items), e) => Outcome::Accept(
                DirectiveView::UserAlias(DefView(name, items)),
                e,
            ),
            Outcome::Reject => Outcome::Reject,
            Outcome::Fatal(f, e) => Outcome::Fatal(f, e),
        }
    } else if key == "Host_Alias"@ {
        match alias_body::<Meta<Hostname>>(s, pos) {
            Outcome::Accept((name, items), e) => Outcome::Accept(
                DirectiveView::HostAlias(DefView(name, items)),
                e,
            ),
            Outcome::Reject => Outcome::Reject,
            Outcome::Fatal(f, e) => Outcome::Fatal(f, e),
        }
    } else if key == "Cmnd_Alias"@ || key == "Cmd_Alias"@ {
        match alias_body::<Meta<Command>>(s, pos) {
            Outcome::Accept((name, items), e) => Outcome::Accept(
                DirectiveView::CmndAlias(DefView(name, items)),
                e,
            ),
            Outcome::Reject => Outcome::Reject,
            Outcome::Fatal(f, e) => Outcome::Fatal(f, e),
        }
    } else if key == "Runas_Alias"@ {
        match alias_body::<Meta<UserSpecifier>>(s, pos) {
            Outcome::Accept((name, items), e) => Outcome::Accept(
                DirectiveView::RunasAlias(DefView(name, items)),
                e,
            ),
            Outcome::Reject => Outcome::Reject,
            Outcome::Fatal(f, e) => Outcome::Fatal(f, e),
        }
    } else if key == "Defaults"@ {
        setting(s, pos)
    } else {
        Outcome::Reject
    }
}

/// The word that may be a directive keyword: the first entry of a list of
/// users, where it is a plain name without a sign.
pub open spec fn keyword_of(first: SpecView<UserSpecifierView>) -> Option<Seq<char>> {
    match first {
        Qualified::Allow(MetaView::Only(UserSpecifierView::User(IdentifierView::Name(key)))) => Some(
            key,
        ),
        _ => None,
    }
}

/// The directive that a line is, if its first word is a directive keyword.
pub open spec fn directive_after(first: SpecView<UserSpecifierView>, s: Seq<char>, pos: int)
    -> Outcome<DirectiveView> {
    match keyword_of(first) {
        Some(key) => directive(key, s, pos),
        None => Outcome::Reject,
    }
}

/// A directive is read inside the text.
pub proof fn lemma_directive(key: Seq<char>, s: Seq<char>, pos: int)
    requires
        0 <= pos <= s.len(),
    ensures
        directive(key, s, pos).within(s, pos),
{
    lemma_alias_body::<Meta<UserSpecifier>>(s, pos);
    lemma_alias_body::<Meta<Hostname>>(s, pos);
    lemma_alias_body::<Meta<Command>>(s, pos);
    lemma_setting(s, pos);
}

/// Reads the directive that `perhaps_keyword` begins, from behind the keyword.
pub fn get_directive(perhaps_keyword: &Spec<UserSpecifier>, s: &Vec<char>, pos: usize) -> (r:
    Parsed<Directive>)
    requires
        pos <= s.len(),
    ensures
        outcome(r) == directive_after(perhaps_keyword.deep_view(), s@, pos as int),
        outcome(r).within(s@, pos as int),
{
    let key = match perhaps_keyword {
        Qualified::Allow(Meta::Only(UserSpecifier::User(Identifier::Name(key)))) => key,
        _ => {
            return Err(Status::Reject);
        },
    };
    proof {
        lemma_directive(key@, s@, pos as int);
    }
    let word = crate::text::to_chars(key.as_str());
    if spells(&word, "User_Alias") {
        let ((name, items), e) = parse_alias_body::<Meta<UserSpecifier>>(s, pos)?;
        Ok((Directive::UserAlias(Def(name, items)), e))
    } else if spells(&word, "Host_Alias") {
        let ((name, items), e) = parse_alias_body::<Meta<Hostname>>(s, pos)?;
        Ok((Directive::HostAlias(Def(name, items)), e))
    } else if spells(&word, "Cmnd_Alias") || spells(&word, "Cmd_Alias") {
        let ((name, items), e) = parse_alias_body::<Meta<Command>>(s, pos)?;
        Ok((Directive::CmndAlias(Def(name, items)), e))
    } else if spells(&word, "Runas_Alias") {
        let ((name, items), e) = parse_alias_body::<Meta<UserSpecifier>>(s, pos)?;
        Ok((Directive::RunasAlias(Def(name, items)), e))
    } else if spells(&word, "Defaults") {
        parse_default(s, pos)
    } else {
        Err(Status::Reject)
    }
}

/// The path behind an include directive: a quoted text, or a bare path, behind
/// which the line has to end.
pub open spec fn include_path(s: Seq<char>, pos: int) -> Outcome<Seq<char>> {
    if 0 <= pos < s.len() && s[pos] == '"' {
        match token(TokenClass::QuotedText, s, pos + 1).required(pos + 1) {
            Outcome::Accept(t, p) => match closing_quote(s, p) {
                Outcome::Accept(_, e) => Outcome::Accept(t, e),
                Outcome::Reject => Outcome::Reject,
                Outcome::Fatal(f, e) => Outcome::Fatal(f, e),
            },
            Outcome::Reject => Outcome::Reject,
            Outcome::Fatal(f, p) => Outcome::Fatal(f, p),
        }
    } else {
        match token(TokenClass::IncludePath, s, pos).required(pos) {
            Outcome::Accept(t, p) => if 0 <= p < s.len() && s[p] != '\n' {
                Outcome::Fatal(Fault::UnquotedPath, p)
            } else {
                Outcome::Accept(t, p)
            },
            Outcome::Reject => Outcome::Reject,
            Outcome::Fatal(f, p) => Outcome::Fatal(f, p),
        }
    }
}

/// What follows the `@` or `#` of an include directive: `include` or
/// `includedir`, and a path.
pub open spec fn include_directive(s: Seq<char>, pos: int) -> Outcome<SudoView> {
    match token(TokenClass::Username, s, pos) {
        Outcome::Accept(key, p) => {
            if key == "include"@ {
                match include_path(s, p) {
                    Outcome::Accept(path, e) => Outcome::Accept(SudoView::Include(path), e),
                    Outcome::Reject => Outcome::Reject,
                    Outcome::Fatal(f, e) => Outcome::Fatal(f, e),
                }
            } else if key == "includedir"@ {
                match include_path(s, p) {
                    Outcome::Accept(path, e) => Outcome::Accept(SudoView::IncludeDir(path), e),
                    Outcome::Reject => Outcome::Reject,
                    Outcome::Fatal(f, e) => Outcome::Fatal(f, e),
                }
            } else {
                Outcome::Fatal(Fault::UnknownDirective, pos)
            }
        },
        Outcome::Reject => Outcome::Fatal(Fault::UnknownDirective, pos),
        Outcome::Fatal(f, p) => Outcome::Fatal(f, p),
    }
}

/// The path of an include directive is read inside the text and is never
/// rejected.
pub proof fn lemma_include_path(s: Seq<char>, pos: int)
    requires
        0 <= pos <= s.len(),
    ensures
        include_path(s, pos).within(s, pos),
        !(include_path(s, pos) is Reject),
{
    lemma_token(TokenClass::IncludePath, s, pos);
    if pos < s.len() {
        lemma_token(TokenClass::QuotedText, s, pos + 1);
        match token(TokenClass::QuotedText, s, pos + 1) {
            Outcome::Accept(t, p) => {
                lemma_syntax('"', s, p);
            },
            _ => {},
        }
    }
}

/// An include directive is read inside the text and is never rejected.
pub proof fn lemma_include(s: Seq<char>, pos: int)
    requires
        0 <= pos <= s.len(),
    ensures
        include_directive(s, pos).within(s, pos),
        !(include_directive(s, pos) is Reject),
{
    lemma_token(TokenClass::Username, s, pos);
    match token(TokenClass::Username, s, pos) {
        Outcome::Accept(key, p) => {
            lemma_include_path(s, p);
        },
        _ => {},
    }
}

fn parse_include_path(s: &Vec<char>, pos: usize) -> (r: Parsed<String>)
    requires
        pos <= s.len(),
    ensures
        outcome(r) == include_path(s@, pos as int),
        outcome(r).within(s@, pos as int),
{
    proof {
        lemma_include_path(s@, pos as int);
    }
    if at('"', s, pos) {
        let (t, p) = expect(scan(TokenClass::QuotedText, s, pos + 1), pos + 1)?;
        assert(t.deep_view() =~= t@);
        let (_, e) = expect_quote(s, p)?;
        Ok((from_chars(&t), e))
    } else {
        let (t, p) = expect(scan(TokenClass::IncludePath, s, pos), pos)?;
        assert(t.deep_view() =~= t@);
        if p < s.len() && s[p] != '\n' {
            return Err(Status::Fatal(Fault::UnquotedPath, p));
        }
        Ok((from_chars(&t), p))
    }
}

/// Reads the include directive that follows the `#` or `@` before `pos`.
pub fn parse_include(s: &Vec<char>, pos: usize) -> (r: Parsed<Sudo>)
    requires
        pos <= s.len(),
    ensures
        outcome(r) == include_directive(s@, pos as int),
        outcome(r).within(s@, pos as int),
{
    proof {
        lemma_include(s@, pos as int);
    }
    match scan(TokenClass::Username, s, pos) {
        Ok((key, p)) => {
            assert(key.deep_view() =~= key@);
            if spells(&key, "include") {
                let (path, e) = parse_include_path(s, p)?;
                Ok((Sudo::Include(path), e))
            } else if spells(&key, "includedir") {
                let (path, e) = parse_include_path(s, p)?;
                Ok((Sudo::IncludeDir(path), e))
            } else {
                Err(Status::Fatal(Fault::UnknownDirective, pos))
            }
        },
        Err(Status::Reject) => Err(Status::Fatal(Fault::UnknownDirective, pos)),
        Err(e) => Err(e),
    }
}

/// The first position from `pos` on that holds a newline, or the end of `s`.
pub open spec fn line_end(s: Seq<char>, pos: int) -> int
    decreases s.len() - pos,
{
    if 0 <= pos < s.len() && s[pos] != '\n' {
        line_end(s, pos + 1)
    } else {
        pos
    }
}

/// The end of a line lies inside the text, at a newline or at the end of the
/// text.
pub proof fn lemma_line_end(s: Seq<char>, pos: int)
    requires
        0 <= pos <= s.len(),
    ensures
        pos <= line_end(s, pos) <= s.len(),
        line_end(s, pos) < s.len() ==> s[line_end(s, pos)] == '\n',
    decreases s.len() - pos,
{
    if pos < s.len() && s[pos] != '\n' {
        lemma_line_end(s, pos + 1);
    }
}

/// Finds the end of the line that holds `pos`.
pub fn to_line_end(s: &Vec<char>, pos: usize) -> (p: usize)
    requires
        pos <= s.len(),
    ensures
        p == line_end(s@, pos as int),
        pos <= p <= s.len(),
        p < s.len() ==> s@[p as int] == '\n',
{
    let mut p = pos;
    while p < s.len() && s[p] != '\n'
        invariant
            pos <= p <= s.len(),
            line_end(s@, p as int) == line_end(s@, pos as int),
        decreases s.len() - p,
    {
        p += 1;
    }
    p
}

/// A permission line whose first user is the numeric id `first`, which ends
/// before `pos`.
pub open spec fn numbered_spec(first: IdentifierView, s: Seq<char>, pos: int) -> Outcome<SudoView> {
    let head = Qualified::Allow(MetaView::Only(UserSpecifierView::User(first)));
    match optional_syntax(',', s, pos) {
        Outcome::Accept(more, p) => match (if more {
            list::<Spec<UserSpecifier>>(',', LIST_LIMIT as nat, s, p).required(p)
        } else {
            Outcome::Accept(Seq::empty(), p)
        }) {
            Outcome::Accept(rest, q) => match grants(s, q) {
                Outcome::Accept(permissions, e) => Outcome::Accept(
                    SudoView::Spec(PermissionSpecView { users: seq![head] + rest, permissions }),
                    e,
                ),
                Outcome::Reject => Outcome::Reject,
                Outcome::Fatal(f, e) => Outcome::Fatal(f, e),
            },
            Outcome::Reject => Outcome::Reject,
            Outcome::Fatal(f, q) => Outcome::Fatal(f, q),
        },
        Outcome::Reject => Outcome::Reject,
        Outcome::Fatal(f, p) => Outcome::Fatal(f, p),
    }
}

/// A line that begins with `#`: a permission line if a numeric id follows the
/// `#`, else an include directive, else a comment up to the end of the line.
pub open spec fn hash_line(s: Seq<char>, pos: int) -> Outcome<SudoView> {
    match identifier(s, pos) {
        Outcome::Accept(id, p) => numbered_spec(id, s, p),
        _ => match include_directive(s, pos + 1) {
            Outcome::Accept(v, e) => Outcome::Accept(v, e),
            _ => Outcome::Accept(SudoView::LineComment, line_end(s, pos + 1)),
        },
    }
}

/// A line that begins with a list of users: a directive if its first word is a
/// directive keyword, else a permission line.
pub open spec fn user_line(users: Seq<SpecView<UserSpecifierView>>, s: Seq<char>, pos: int)
    -> Outcome<SudoView>
    recommends
        users.len() >= 1,
{
    match directive_after(users[0], s, pos) {
        Outcome::Accept(d, e) => if users.len() != 1 {
            Outcome::Fatal(Fault::KeywordInUserList, e)
        } else {
            Outcome::Accept(SudoView::Decl(d), e)
        },
        Outcome::Reject => match grants(s, pos) {
            Outcome::Accept(permissions, e) => Outcome::Accept(
                SudoView::Spec(PermissionSpecView { users, permissions }),
                e,
            ),
            Outcome::Reject => Outcome::Reject,
            Outcome::Fatal(f, e) => Outcome::Fatal(f, e),
        },
        Outcome::Fatal(f, e) => Outcome::Fatal(f, e),
    }
}

/// ```text
/// sudo = permissionspec
///      | Keyword_Alias identifier = identifier_list
///      | Defaults name [+-]?= ...
///      | [@#]include path | [@#]includedir path
///      | # comment
/// ```
/// What is none of these is taken for an empty comment: nothing is consumed.
#[verifier::opaque]
pub open spec fn sudo(s: Seq<char>, pos: int) -> Outcome<SudoView> {
    if 0 <= pos < s.len() && s[pos] == '@' {
        include_directive(s, pos + 1)
    } else if 0 <= pos < s.len() && s[pos] == '#' {
        hash_line(s, pos)
    } else {
        match list::<Spec<UserSpecifier>>(',', LIST_LIMIT as nat, s, pos) {
            Outcome::Accept(users, p) => user_line(users, s, p),
            Outcome::Reject => Outcome::Accept(SudoView::LineComment, pos),
            Outcome::Fatal(f, p) => Outcome::Fatal(f, p),
        }
    }
}

/// A permission line for a numeric id is read inside the text and is never
/// rejected.
pub proof fn lemma_numbered_spec(first: IdentifierView, s: Seq<char>, pos: int)
    requires
        0 <= pos <= s.len(),
    ensures
        numbered_spec(first, s, pos).within(s, pos),
        !(numbered_spec(first, s, pos) is Reject),
{
    lemma_syntax(',', s, pos);
    match optional_syntax(',', s, pos) {
        Outcome::Accept(more, p) => {
            lemma_list::<Spec<UserSpecifier>>(',', LIST_LIMIT as nat, s, p);
            let rest = if more {
                list::<Spec<UserSpecifier>>(',', LIST_LIMIT as nat, s, p).required(p)
            } else {
                Outcome::Accept(Seq::empty(), p)
            };
            match rest {
                Outcome::Accept(_, q) => {
                    lemma_list::<Grant>(':', LIST_LIMIT as nat, s, q);
                },
                _ => {},
            }
        },
        _ => {},
    }
}

/// A line is read inside the text and is never rejected.
pub proof fn lemma_sudo(s: Seq<char>, pos: int)
    requires
        0 <= pos <= s.len(),
    ensures
        sudo(s, pos).within(s, pos),
        !(sudo(s, pos) is Reject),
{
    reveal(sudo);
    if pos < s.len() && s[pos] == '@' {
        lemma_include(s, pos + 1);
    } else if pos < s.len() && s[pos] == '#' {
        Identifier::lemma_grammar(s, pos);
        match identifier(s, pos) {
            Outcome::Accept(id, p) => {
                lemma_numbered_spec(id, s, p);
            },
            _ => {
                lemma_include(s, pos + 1);
                lemma_line_end(s, pos + 1);
            },
        }
    } else {
        lemma_list::<Spec<UserSpecifier>>(',', LIST_LIMIT as nat, s, pos);
        match list::<Spec<UserSpecifier>>(',', LIST_LIMIT as nat, s, pos) {
            Outcome::Accept(users, p) => {
                match keyword_of(users[0]) {
                    Some(key) => {
                        lemma_directive(key, s, p);
                    },
                    None => {},
                }
                lemma_list::<Grant>(':', LIST_LIMIT as nat, s, p);
            },
            _ => {},
        }
    }
}

fn parse_numbered_spec(first: Identifier, s: &Vec<char>, pos: usize) -> (r: Parsed<Sudo>)
    requires
        pos <= s.len(),
    ensures
        outcome(r) == numbered_spec(first.deep_view(), s@, pos as int),
        outcome(r).within(s@, pos as int),
{
    proof {
        lemma_numbered_spec(first.deep_view(), s@, pos as int);
    }
    let ghost head = Qualified::Allow(
        MetaView::Only(UserSpecifierView::User(first.deep_view())),
    );
    let first_user = Qualified::Allow(Meta::Only(UserSpecifier::User(first)));
    let (more, p) = is_syntax(',', s, pos)?;
    let (users, q) = if more {
        let (mut rest, q) = expect(parse_list::<Spec<UserSpecifier>>(',', LIST_LIMIT, s, p), p)?;
        let ghost tail = rest.deep_view();
        rest.insert(0, first_user);
        assert(rest.deep_view() =~= seq![head] + tail);
        (rest, q)
    } else {
        let mut only: Vec<Spec<UserSpecifier>> = Vec::new();
        only.push(first_user);
        assert(only.deep_view() =~= seq![head] + Seq::empty());
        (only, p)
    };
    let (permissions, e) = parse_grants(s, q)?;
    Ok((Sudo::Spec(PermissionSpec { users, permissions }), e))
}

impl Parse for Sudo {
    open spec fn grammar(s: Seq<char>, pos: int) -> Outcome<SudoView> {
        sudo(s, pos)
    }

    proof fn lemma_grammar(s: Seq<char>, pos: int) {
        lemma_sudo(s, pos);
    }

    fn parse(s: &Vec<char>, pos: usize) -> (r: Parsed<Self>) {
        proof {
            reveal(sudo);
            lemma_sudo(s@, pos as int);
        }
        if at('@', s, pos) {
            return parse_include(s, pos + 1);
        }
        if at('#', s, pos) {
            return match Identifier::parse(s, pos) {
                Ok((id, p)) => parse_numbered_spec(id, s, p),
                Err(_) => match parse_include(s, pos + 1) {
                    Ok(found) => Ok(found),
                    Err(_) => Ok((Sudo::LineComment, to_line_end(s, pos + 1))),
                },
            };
        }
        match parse_list::<Spec<UserSpecifier>>(',', LIST_LIMIT, s, pos) {
            Ok((users, p)) => {
                assert(users.deep_view()[0] == users@[0].deep_view());
                match get_directive(&users[0], s, p) {
                    Ok((d, e)) => {
                        if users.len() != 1 {
                            return Err(Status::Fatal(Fault::KeywordInUserList, e));
                        }
                        Ok((Sudo::Decl(d), e))
                    },
                    Err(Status::Reject) => {
                        let (permissions, e) = parse_grants(s, p)?;
                        Ok((Sudo::Spec(PermissionSpec { users, permissions }), e))
                    },
                    Err(e) => Err(e),
                }
            },
            Err(Status::Reject) => Ok((Sudo::LineComment, pos)),
            Err(e) => Err(e),
        }
    }
}

/// The position behind the line that holds `pos`.
pub open spec fn next_line(s: Seq<char>, pos: int) -> int {
    let e = line_end(s, pos);
    if e < s.len() {
        e + 1
    } else {
        e
    }
}

/// A line of the policy, or what is wrong with it and where.
pub type Line = Result<Sudo, (Fault, usize)>;

/// The model of [`Line`].
pub type LineView = Result<SudoView, (Fault, int)>;

/// The model of a [`Line`].
pub open spec fn line_view(l: Line) -> LineView {
    match l {
        Ok(item) => Ok(item.deep_view()),
        Err((f, p)) => Err((f, p as int)),
    }
}

/// The models of lines.
pub open spec fn lines_view(ls: Seq<Line>) -> Seq<LineView> {
    ls.map_values(|l: Line| line_view(l))
}

/// The lines of a policy from `pos` on. Each line holds one item, which blanks
/// may precede and a comment may follow. A line that is malformed yields its
/// error and is skipped; text behind a complete item yields the item and an
/// error. The end of the text ends the last line.
pub open spec fn lines(s: Seq<char>, pos: int) -> Seq<LineView>
    recommends
        0 <= pos <= s.len(),
    decreases s.len() - pos,
{
    let p = crate::basic_parser::skip_blanks(s, pos);
    if pos < 0 || p >= s.len() {
        Seq::empty()
    } else {
        proof {
            crate::basic_parser::lemma_skip_blanks(s, pos);
            lemma_sudo(s, p);
        }
        match sudo(s, p) {
            Outcome::Accept(item, q) => {
                let e = if q < s.len() && s[q] == '#' {
                    line_end(s, q)
                } else {
                    q
                };
                proof {
                    lemma_line_end(s, q);
                    lemma_line_end(s, e);
                }
                if e == s.len() {
                    seq![Ok(item)]
                } else if s[e] == '\n' {
                    seq![Ok(item)] + lines(s, e + 1)
                } else {
                    seq![Ok(item), Err((Fault::TrailingText, e))] + lines(s, next_line(s, e))
                }
            },
            Outcome::Fatal(f, q) => {
                proof {
                    lemma_line_end(s, q);
                }
                if q < s.len() {
                    seq![Err((f, q))] + lines(s, next_line(s, q))
                } else {
                    seq![Err((f, q))]
                }
            },
            Outcome::Reject => Seq::empty(),
        }
    }
}

/// Every error among the lines stands at a position inside the text.
pub proof fn lemma_lines_within(s: Seq<char>, pos: int, k: int)
    requires
        0 <= pos <= s.len(),
        0 <= k < lines(s, pos).len(),
    ensures
        lines(s, pos)[k] matches Err((_, p)) ==> 0 <= p <= s.len(),
    decreases s.len() - pos,
{
    let p = crate::basic_parser::skip_blanks(s, pos);
    crate::basic_parser::lemma_skip_blanks(s, pos);
    if p < s.len() {
        lemma_sudo(s, p);
        match sudo(s, p) {
            Outcome::Accept(item, q) => {
                lemma_line_end(s, q);
                let e = if q < s.len() && s[q] == '#' {
                    line_end(s, q)
                } else {
                    q
                };
                lemma_line_end(s, e);
                if e == s.len() {
                } else if s[e] == '\n' {
                    if k >= 1 {
                        lemma_lines_within(s, e + 1, k - 1);
                    }
                } else {
                    if k >= 2 {
                        lemma_lines_within(s, next_line(s, e), k - 2);
                    }
                }
            },
            Outcome::Fatal(f, q) => {
                lemma_line_end(s, q);
                if q < s.len() {
                    if k >= 1 {
                        lemma_lines_within(s, next_line(s, q), k - 1);
                    }
                }
            },
            Outcome::Reject => {},
        }
    }
}

/// Reads the lines of a policy.
pub fn parse_lines(s: &Vec<char>) -> (r: Vec<Line>)
    ensures
        lines_view(r@) == lines(s@, 0),
{
    let mut out: Vec<Line> = Vec::new();
    let mut pos: usize = 0;
    assert(lines_view(out@) =~= Seq::<LineView>::empty());
    loop
        invariant
            pos <= s.len(),
            lines(s@, 0) == lines_view(out@) + lines(s@, pos as int),
        decreases s.len() - pos,
    {
        let p = crate::basic_parser::blanks(s, pos);
        if p >= s.len() {
            assert(lines_view(out@) + Seq::<LineView>::empty() =~= lines_view(out@));
            return out;
        }
        proof {
            lemma_sudo(s@, p as int);
        }
        let ghost before = lines_view(out@);
        match Sudo::parse(s, p) {
            Ok((item, q)) => {
                let e = if q < s.len() && s[q] == '#' {
                    to_line_end(s, q)
                } else {
                    q
                };
                let ghost iv: LineView = Ok(item.deep_view());
                out.push(Ok(item));
                assert(lines_view(out@) =~= before.push(iv));
                if e == s.len() {
                    assert(before + seq![iv] =~= before.push(iv));
                    return out;
                } else if s[e] == '\n' {
                    assert(before + (seq![iv] + lines(s@, e + 1)) =~= before.push(iv) + lines(
                        s@,
                        e + 1,
                    ));
                    pos = e + 1;
                } else {
                    let n = to_line_end(s, e);
                    let next = if n < s.len() {
                        n + 1
                    } else {
                        n
                    };
                    let ghost ev: LineView = Err((Fault::TrailingText, e as int));
                    out.push(Err((Fault::TrailingText, e)));
                    assert(lines_view(out@) =~= before.push(iv).push(ev));
                    assert(before + (seq![iv, ev] + lines(s@, next as int)) =~= before.push(
                        iv,
                    ).push(ev) + lines(s@, next as int));
                    pos = next;
                }
            },
            Err(Status::Fatal(f, q)) => {
                let n = to_line_end(s, q);
                let next = if n < s.len() {
                    n + 1
                } else {
                    n
                };
                let ghost ev: LineView = Err((f, q as int));
                out.push(Err((f, q)));
                assert(lines_view(out@) =~= before.push(ev));
                if q >= s.len() {
                    assert(before + seq![ev] =~= before.push(ev));
                    return out;
                }
                assert(before + (seq![ev] + lines(s@, next as int)) =~= before.push(ev) + lines(
                    s@,
                    next as int,
                ));
                pos = next;
            },
            Err(Status::Reject) => {
                return out;
            },
        }
    }
}

} // verus!

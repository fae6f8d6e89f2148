//! Whether a policy lets a request through, and on what terms.
//!
//! Every list of the policy is read from its end: the last entry that says
//! anything about the subject decides. An alias says what the list behind it
//! says, negated if the alias is.

use crate::ast::{
    Command, CommandSpec, CommandSpecView, CommandView, Def, DefView, Grant, GrantView, Hostname,
    Identifier, IdentifierView, Meta, MetaView, PermissionSpecView, Qualified,
    RunAs, RunAsView, Spec, SpecView, Tag, UserSpecifier, UserSpecifierView,
};
use crate::analysis::{alias_of, grounded, grounded_within, lemma_grounded_in_time, mentions};
use crate::glob::{glob, glob_matches};
use crate::settings::{same_text, Settings, SettingsView};
use crate::sudoers::{Sudoers, SudoersView};
use crate::text::to_chars;
use vstd::prelude::*;

verus! {

/// A group of the system.
#[derive(Debug, Clone, PartialEq, Eq)]
pub struct Group {
    pub gid: libc::gid_t,
    pub name: String,
    pub members: Vec<String>,
}

/// A user of the system. `groups` holds the groups that the user belongs to,
/// where they are known.
#[derive(Debug, Clone, PartialEq, Eq)]
pub struct User {
    pub uid: libc::uid_t,
    pub gid: libc::gid_t,
    pub name: String,
    pub home: String,
    pub shell: String,
    pub groups: Option<Vec<Group>>,
}

/// What is asked for: who, on which host, wants to run which command as whom.
#[derive(Debug, Clone, PartialEq, Eq)]
pub struct Request {
    pub invoker_user: User,
    pub invoker_host: String,
    pub target_user: User,
    pub target_group: Group,
    pub command_path: String,
    pub command_args: Vec<String>,
}

/// The model of [`Group`].
pub struct GroupView {
    pub gid: u32,
    pub name: Seq<char>,
    pub members: Seq<Seq<char>>,
}

/// The model of [`User`].
pub struct UserView {
    pub uid: u32,
    pub gid: u32,
    pub name: Seq<char>,
    pub home: Seq<char>,
    pub shell: Seq<char>,
    pub groups: Seq<GroupView>,
}

/// The model of [`Request`].
pub struct RequestView {
    pub invoker_user: UserView,
    pub invoker_host: Seq<char>,
    pub target_user: UserView,
    pub target_group: GroupView,
    pub command_path: Seq<char>,
    pub command_args: Seq<Seq<char>>,
}

impl DeepView for Group {
    type V = GroupView;

    open spec fn deep_view(&self) -> GroupView {
        GroupView { gid: self.gid, name: self.name@, members: self.members.deep_view() }
    }
}

impl DeepView for User {
    type V = UserView;

    open spec fn deep_view(&self) -> UserView {
        UserView {
            uid: self.uid,
            gid: self.gid,
            name: self.name@,
            home: self.home@,
            shell: self.shell@,
            groups: match self.groups {
                Some(g) => g.deep_view(),
                None => Seq::empty(),
            },
        }
    }
}

impl DeepView for Request {
    type V = RequestView;

    open spec fn deep_view(&self) -> RequestView {
        RequestView {
            invoker_user: self.invoker_user.deep_view(),
            invoker_host: self.invoker_host@,
            target_user: self.target_user.deep_view(),
            target_group: self.target_group.deep_view(),
            command_path: self.command_path@,
            command_args: self.command_args.deep_view(),
        }
    }
}

/// A command as it is matched: its path, and its arguments joined by spaces.
pub struct CommandLine {
    pub path: Vec<char>,
    pub args: Vec<char>,
}

/// The model of [`CommandLine`].
pub struct CommandLineView {
    pub path: Seq<char>,
    pub args: Seq<char>,
}

impl DeepView for CommandLine {
    type V = CommandLineView;

    open spec fn deep_view(&self) -> CommandLineView {
        CommandLineView { path: self.path@, args: self.args@ }
    }
}

/// The terms on which a command may run.
#[derive(Debug, Clone, Copy, PartialEq, Eq, Structural)]
pub struct Flags {
    /// Whether the invoker has to authenticate.
    pub passwd: bool,
    /// The timeout of the command in seconds, if the policy sets one.
    pub timeout: Option<i32>,
}

/// The outcome of a request: `flags` is `None` where the request is forbidden.
/// The settings of the policy come with it.
#[derive(Debug, Clone, PartialEq, Eq)]
pub struct Judgement {
    pub flags: Option<Flags>,
    pub settings: Settings,
}

/// The model of [`Judgement`].
pub struct JudgementView {
    pub flags: Option<Flags>,
    pub settings: SettingsView,
}

impl View for Judgement {
    type V = JudgementView;

    open spec fn view(&self) -> JudgementView {
        JudgementView { flags: self.flags, settings: self.settings@ }
    }
}

/// Items of the policy that can be held against a subject of a request.
pub trait Matches<S: DeepView>: DeepView + Sized {
    /// Whether the item names the subject.
    spec fn hits(item: Self::V, subject: S::V) -> bool;

    fn hit(&self, subject: &S) -> (r: bool)
        ensures
            r == Self::hits(self.deep_view(), subject.deep_view()),
    ;
}

/// Whether a group with this id is among `groups`.
pub open spec fn has_gid(groups: Seq<GroupView>, gid: u32) -> bool {
    exists|i: int| 0 <= i < groups.len() && #[trigger] groups[i].gid == gid
}

/// Whether a group with this name is among `groups`.
pub open spec fn has_group_name(groups: Seq<GroupView>, name: Seq<char>) -> bool {
    exists|i: int| 0 <= i < groups.len() && #[trigger] groups[i].name == name
}

/// Whether the item names the user: by name, by id, or by a group that the
/// user belongs to. Groups that are no Unix groups name nobody.
pub open spec fn user_hits(item: UserSpecifierView, user: UserView) -> bool {
    match item {
        UserSpecifierView::User(IdentifierView::Name(n)) => user.name == n,
        UserSpecifierView::User(IdentifierView::ID(k)) => user.uid == k,
        UserSpecifierView::Group(IdentifierView::Name(g)) => has_group_name(user.groups, g),
        UserSpecifierView::Group(IdentifierView::ID(k)) => user.gid == k || has_gid(user.groups, k),
        UserSpecifierView::NonunixGroup(_) => false,
    }
}

/// Whether the identifier names the group.
pub open spec fn group_hits(item: IdentifierView, group: GroupView) -> bool {
    match item {
        IdentifierView::Name(n) => group.name == n,
        IdentifierView::ID(k) => group.gid == k,
    }
}

/// Whether the command of the policy covers the command line: its path pattern
/// matches the path and, where it has a pattern for arguments, that pattern
/// matches the arguments.
pub open spec fn command_hits(item: CommandView, line: CommandLineView) -> bool {
    glob_matches(true, item.path, line.path) && match item.args {
        None => true,
        Some(pattern) => glob_matches(false, pattern, line.args),
    }
}

fn groups_have_gid(groups: &Vec<Group>, gid: u32) -> (r: bool)
    ensures
        r == has_gid(groups.deep_view(), gid),
{
    let mut i: usize = 0;
    while i < groups.len()
        invariant
            i <= groups.len(),
            forall|k: int| 0 <= k < i ==> groups.deep_view()[k].gid != gid,
        decreases groups.len() - i,
    {
        if groups[i].gid == gid {
            assert(groups.deep_view()[i as int].gid == gid);
            return true;
        }
        i += 1;
    }
    false
}

fn groups_have_name(groups: &Vec<Group>, name: &str) -> (r: bool)
    ensures
        r == has_group_name(groups.deep_view(), name@),
{
    let mut i: usize = 0;
    while i < groups.len()
        invariant
            i <= groups.len(),
            forall|k: int| 0 <= k < i ==> groups.deep_view()[k].name != name@,
        decreases groups.len() - i,
    {
        if same_text(groups[i].name.as_str(), name) {
            assert(groups.deep_view()[i as int].name == name@);
            return true;
        }
        i += 1;
    }
    false
}

impl Matches<User> for UserSpecifier {
    open spec fn hits(item: UserSpecifierView, subject: UserView) -> bool {
        user_hits(item, subject)
    }

    fn hit(&self, subject: &User) -> (r: bool) {
        match self {
            UserSpecifier::User(Identifier::Name(n)) => same_text(
                subject.name.as_str(),
                n.as_str(),
            ),
            UserSpecifier::User(Identifier::ID(k)) => subject.uid == *k,
            UserSpecifier::Group(Identifier::Name(g)) => match &subject.groups {
                Some(groups) => groups_have_name(groups, g.as_str()),
                None => false,
            },
            UserSpecifier::Group(Identifier::ID(k)) => subject.gid == *k || match &subject.groups {
                Some(groups) => groups_have_gid(groups, *k),
                None => false,
            },
            UserSpecifier::NonunixGroup(_) => false,
        }
    }
}

impl Matches<String> for Hostname {
    open spec fn hits(item: Seq<char>, subject: Seq<char>) -> bool {
        item == subject
    }

    fn hit(&self, subject: &String) -> (r: bool) {
        same_text(self.0.as_str(), subject.as_str())
    }
}

impl Matches<Group> for Identifier {
    open spec fn hits(item: IdentifierView, subject: GroupView) -> bool {
        group_hits(item, subject)
    }

    fn hit(&self, subject: &Group) -> (r: bool) {
        match self {
            Identifier::Name(n) => same_text(subject.name.as_str(), n.as_str()),
            Identifier::ID(k) => subject.gid == *k,
        }
    }
}

impl Matches<CommandLine> for Command {
    open spec fn hits(item: CommandView, subject: CommandLineView) -> bool {
        command_hits(item, subject)
    }

    fn hit(&self, subject: &CommandLine) -> (r: bool) {
        let path = to_chars(self.path.as_str());
        if !glob(true, &path, &subject.path) {
            return false;
        }
        match &self.args {
            None => true,
            Some(pattern) => {
                let p = to_chars(pattern.as_str());
                glob(false, &p, &subject.args)
            },
        }
    }
}

/// The index of the first alias called `name`, if there is one.
pub open spec fn find_def<V>(aliases: Seq<DefView<V>>, name: Seq<char>) -> Option<int>
    decreases aliases.len(),
{
    if aliases.len() == 0 {
        None
    } else {
        match find_def(aliases.drop_last(), name) {
            Some(k) => Some(k),
            None => if aliases.last().0 == name {
                Some(aliases.len() - 1)
            } else {
                None
            },
        }
    }
}

/// What one entry of a list says about the subject: `Some(true)` admits it,
/// `Some(false)` refuses it, `None` says nothing. At most `fuel` aliases are
/// followed, one inside the other.
pub open spec fn verdict_of<T: Matches<S>, S: DeepView>(
    entry: SpecView<T::V>,
    aliases: Seq<DefView<T::V>>,
    fuel: nat,
    subject: S::V,
) -> Option<bool>
    decreases fuel, 0nat,
{
    let (sign, meta) = match entry {
        Qualified::Allow(m) => (true, m),
        Qualified::Forbid(m) => (false, m),
    };
    match meta {
        MetaView::All => Some(sign),
        MetaView::Only(v) => if T::hits(v, subject) {
            Some(sign)
        } else {
            None
        },
        MetaView::Alias(name) => if fuel == 0 {
            None
        } else {
            match find_def(aliases, name) {
                Some(k) => match decide::<T, S>(
                    aliases[k].1,
                    aliases,
                    (fuel - 1) as nat,
                    subject,
                ) {
                    Some(inner) => Some(sign == inner),
                    None => None,
                },
                None => None,
            }
        },
    }
}

/// What a list says about the subject: what its last entry that says anything
/// says.
pub open spec fn decide<T: Matches<S>, S: DeepView>(
    list: Seq<SpecView<T::V>>,
    aliases: Seq<DefView<T::V>>,
    fuel: nat,
    subject: S::V,
) -> Option<bool>
    decreases fuel, list.len() + 1,
{
    if list.len() == 0 {
        None
    } else {
        match verdict_of::<T, S>(list.last(), aliases, fuel, subject) {
            Some(b) => Some(b),
            None => decide::<T, S>(list.drop_last(), aliases, fuel, subject),
        }
    }
}

/// An alias that is found stands in the table under its name.
pub proof fn lemma_find_def<V>(aliases: Seq<DefView<V>>, name: Seq<char>)
    ensures
        find_def(aliases, name) matches Some(k) ==> 0 <= k < aliases.len() && aliases[k].0
            == name,
    decreases aliases.len(),
{
    if aliases.len() > 0 {
        lemma_find_def(aliases.drop_last(), name);
    }
}

/// A list whose aliases are grounded within `fuel` steps says with more fuel
/// what it says with `fuel`.
pub proof fn lemma_enough_fuel<T: Matches<S>, S: DeepView>(
    list: Seq<SpecView<T::V>>,
    aliases: Seq<DefView<T::V>>,
    fuel: nat,
    more: nat,
    subject: S::V,
)
    requires
        fuel <= more,
        forall|j: int|
            0 <= j < aliases.len() && mentions(list, #[trigger] aliases[j].0) ==> grounded_within(
                aliases,
                j,
                fuel,
            ),
    ensures
        decide::<T, S>(list, aliases, fuel, subject) == decide::<T, S>(
            list,
            aliases,
            more,
            subject,
        ),
    decreases fuel, list.len(),
{
    if list.len() > 0 {
        let rest = list.drop_last();
        assert forall|j: int|
            0 <= j < aliases.len() && mentions(
                rest,
                #[trigger] aliases[j].0,
            ) implies grounded_within(aliases, j, fuel) by {
            let k = choose|k: int| 0 <= k < rest.len() && alias_of(rest[k]) == Some(aliases[j].0);
            assert(alias_of(list[k]) == Some(aliases[j].0));
        }
        lemma_enough_fuel::<T, S>(rest, aliases, fuel, more, subject);
        match alias_of(list.last()) {
            Some(name) => {
                lemma_find_def(aliases, name);
                match find_def(aliases, name) {
                    Some(k) => {
                        assert(alias_of(list[list.len() - 1]) == Some(aliases[k].0));
                        assert(mentions(list, aliases[k].0));
                        assert(grounded_within(aliases, k, fuel));
                        lemma_enough_fuel::<T, S>(
                            aliases[k].1,
                            aliases,
                            (fuel - 1) as nat,
                            (more - 1) as nat,
                            subject,
                        );
                    },
                    None => {},
                }
            },
            None => {},
        }
        assert(verdict_of::<T, S>(list.last(), aliases, fuel, subject) == verdict_of::<T, S>(
            list.last(),
            aliases,
            more,
            subject,
        ));
    }
}

/// Where every alias of the table is grounded, a list says with as much fuel
/// as the table holds aliases what it says with any more: no alias is left
/// unfollowed for want of fuel.
pub proof fn lemma_fuel_suffices<T: Matches<S>, S: DeepView>(
    list: Seq<SpecView<T::V>>,
    aliases: Seq<DefView<T::V>>,
    more: nat,
    subject: S::V,
)
    requires
        forall|i: int| 0 <= i < aliases.len() ==> grounded(aliases, i),
        aliases.len() <= more,
    ensures
        decide::<T, S>(list, aliases, aliases.len(), subject) == decide::<T, S>(
            list,
            aliases,
            more,
            subject,
        ),
{
    assert forall|j: int|
        0 <= j < aliases.len() && mentions(list, #[trigger] aliases[j].0) implies grounded_within(
        aliases,
        j,
        aliases.len(),
    ) by {
        lemma_grounded_in_time(aliases, j);
    }
    lemma_enough_fuel::<T, S>(list, aliases, aliases.len(), more, subject);
}

/// An entry that says nothing about the subject can be put anywhere into a
/// list without changing what the list says.
pub proof fn lemma_silent_entry<T: Matches<S>, S: DeepView>(
    list: Seq<SpecView<T::V>>,
    at: int,
    entry: SpecView<T::V>,
    aliases: Seq<DefView<T::V>>,
    fuel: nat,
    subject: S::V,
)
    requires
        0 <= at <= list.len(),
        verdict_of::<T, S>(entry, aliases, fuel, subject) is None,
    ensures
        decide::<T, S>(list.insert(at, entry), aliases, fuel, subject) == decide::<T, S>(
            list,
            aliases,
            fuel,
            subject,
        ),
    decreases list.len(),
{
    let longer = list.insert(at, entry);
    if at == list.len() {
        assert(longer.last() == entry);
        assert(longer.drop_last() == list);
    } else {
        assert(longer.last() == list.last());
        assert(longer.drop_last() == list.drop_last().insert(at, entry));
        lemma_silent_entry::<T, S>(list.drop_last(), at, entry, aliases, fuel, subject);
    }
}

/// The index of the first alias called `name`, if there is one.
pub fn lookup<T: DeepView>(aliases: &Vec<Def<T>>, name: &str) -> (r: Option<usize>)
    ensures
        r matches Some(k) ==> k < aliases.len(),
        (match r {
            Some(k) => Some(k as int),
            None => None,
        }) == find_def(aliases.deep_view(), name@),
{
    let mut i: usize = 0;
    assert(aliases.deep_view().take(0) =~= Seq::<DefView<T::V>>::empty());
    while i < aliases.len()
        invariant
            i <= aliases.len(),
            find_def(aliases.deep_view().take(i as int), name@) is None,
        decreases aliases.len() - i,
    {
        assert(aliases.deep_view().take(i + 1).drop_last() == aliases.deep_view().take(i as int));
        assert(aliases.deep_view().take(i + 1).last() == aliases.deep_view()[i as int]);
        if same_text(aliases[i].0.as_str(), name) {
            proof {
                lemma_find_def_prefix(aliases.deep_view(), name@, i + 1);
            }
            return Some(i);
        }
        i += 1;
    }
    assert(aliases.deep_view().take(aliases.len() as int) == aliases.deep_view());
    None
}

/// An alias that is found among the first `n` is the one found in the whole.
pub proof fn lemma_find_def_prefix<V>(aliases: Seq<DefView<V>>, name: Seq<char>, n: int)
    requires
        0 <= n <= aliases.len(),
        find_def(aliases.take(n), name) is Some,
    ensures
        find_def(aliases, name) == find_def(aliases.take(n), name),
    decreases aliases.len() - n,
{
    if n < aliases.len() {
        assert(aliases.take(n + 1).drop_last() == aliases.take(n));
        lemma_find_def_prefix(aliases, name, n + 1);
    } else {
        assert(aliases.take(n) == aliases);
    }
}

/// What `list` says about `subject`: `Some(true)` admits it, `Some(false)`
/// refuses it, `None` says nothing.
pub fn find_item<T: Matches<S>, S: DeepView>(
    list: &Vec<Spec<T>>,
    aliases: &Vec<Def<T>>,
    fuel: usize,
    subject: &S,
) -> (r: Option<bool>)
    ensures
        r == decide::<T, S>(
            list.deep_view(),
            aliases.deep_view(),
            fuel as nat,
            subject.deep_view(),
        ),
    decreases fuel, 1nat,
{
    let mut i = list.len();
    assert(list.deep_view().take(i as int) == list.deep_view());
    while i > 0
        invariant
            i <= list.len(),
            decide::<T, S>(
                list.deep_view().take(i as int),
                aliases.deep_view(),
                fuel as nat,
                subject.deep_view(),
            ) == decide::<T, S>(
                list.deep_view(),
                aliases.deep_view(),
                fuel as nat,
                subject.deep_view(),
            ),
        decreases i,
    {
        i -= 1;
        assert(list.deep_view().take(i + 1).drop_last() == list.deep_view().take(i as int));
        assert(list.deep_view().take(i + 1).last() == list@[i as int].deep_view());
        let own = entry_verdict::<T, S>(&list[i], aliases, fuel, subject);
        if own.is_some() {
            return own;
        }
    }
    None
}

/// What one entry says about `subject`.
pub fn entry_verdict<T: Matches<S>, S: DeepView>(
    entry: &Spec<T>,
    aliases: &Vec<Def<T>>,
    fuel: usize,
    subject: &S,
) -> (r: Option<bool>)
    ensures
        r == verdict_of::<T, S>(
            entry.deep_view(),
            aliases.deep_view(),
            fuel as nat,
            subject.deep_view(),
        ),
    decreases fuel, 0nat,
{
    let (sign, meta) = match entry {
        Qualified::Allow(m) => (true, m),
        Qualified::Forbid(m) => (false, m),
    };
    match meta {
        Meta::All => Some(sign),
        Meta::Only(item) => if item.hit(subject) {
            Some(sign)
        } else {
            None
        },
        Meta::Alias(name) => {
            if fuel == 0 {
                return None;
            }
            match lookup(aliases, name.as_str()) {
                Some(k) => {
                    assert(aliases.deep_view()[k as int].1 == aliases@[k as int].1.deep_view());
                    match find_item::<T, S>(&aliases[k].1, aliases, fuel - 1, subject) {
                        Some(inner) => Some(sign == inner),
                        None => None,
                    }
                },
                None => None,
            }
        },
    }
}

/// The terms on which a command runs where no tag says otherwise: the invoker
/// authenticates, and there is no timeout.
pub open spec fn default_flags() -> Flags {
    Flags { passwd: true, timeout: None }
}

/// The terms after the tags `tags`, read in order.
pub open spec fn tagged_flags(start: Flags, tags: Seq<Tag>) -> Flags
    decreases tags.len(),
{
    if tags.len() == 0 {
        start
    } else {
        let before = tagged_flags(start, tags.drop_last());
        match tags.last() {
            Tag::NoPasswd => Flags { passwd: false, ..before },
            Tag::Timeout(t) => Flags { timeout: Some(t), ..before },
        }
    }
}

/// The terms that hold behind the last of `cmds`: tags stay in force for the
/// commands that follow in the same list.
pub open spec fn running_flags(cmds: Seq<CommandSpecView>) -> Flags
    decreases cmds.len(),
{
    if cmds.len() == 0 {
        default_flags()
    } else {
        tagged_flags(running_flags(cmds.drop_last()), cmds.last().0)
    }
}

/// What a list of commands says about a command line: the sign of its last
/// entry that covers the command line, and the terms that hold there.
pub open spec fn commands_verdict(
    cmds: Seq<CommandSpecView>,
    aliases: Seq<DefView<CommandView>>,
    line: CommandLineView,
) -> Option<(bool, Flags)>
    decreases cmds.len(),
{
    if cmds.len() == 0 {
        None
    } else {
        match verdict_of::<Command, CommandLine>(
            cmds.last().1,
            aliases,
            aliases.len(),
            line,
        ) {
            Some(b) => Some((b, running_flags(cmds))),
            None => commands_verdict(cmds.drop_last(), aliases, line),
        }
    }
}

/// Whether the group is one of the user's: the user's own group, one of the
/// groups that the user is known to belong to, or a group that lists the user
/// as a member.
pub open spec fn in_group(user: UserView, group: GroupView) -> bool {
    user.gid == group.gid || has_gid(user.groups, group.gid) || group.members.contains(user.name)
}

/// What one entry of a list of groups says about a group. An alias stands for
/// a list of the `Runas_Alias` table, whose users are read as groups.
pub open spec fn group_verdict(
    entry: SpecView<IdentifierView>,
    aliases: Seq<DefView<UserSpecifierView>>,
    group: GroupView,
) -> Option<bool> {
    let (sign, meta) = match entry {
        Qualified::Allow(m) => (true, m),
        Qualified::Forbid(m) => (false, m),
    };
    match meta {
        MetaView::All => Some(sign),
        MetaView::Only(id) => if group_hits(id, group) {
            Some(sign)
        } else {
            None
        },
        MetaView::Alias(name) => match find_def(aliases, name) {
            Some(k) => match decide::<UserSpecifier, Group>(
                aliases[k].1,
                aliases,
                aliases.len(),
                group,
            ) {
                Some(inner) => Some(sign == inner),
                None => None,
            },
            None => None,
        },
    }
}

/// What a list of groups says about a group: what its last entry that says
/// anything says.
pub open spec fn decide_group(
    list: Seq<SpecView<IdentifierView>>,
    aliases: Seq<DefView<UserSpecifierView>>,
    group: GroupView,
) -> Option<bool>
    decreases list.len(),
{
    if list.len() == 0 {
        None
    } else {
        match group_verdict(list.last(), aliases, group) {
            Some(b) => Some(b),
            None => decide_group(list.drop_last(), aliases, group),
        }
    }
}

/// Whether the `runas` part lets the command run as the target user and group.
/// Without a list of users only `root` is admitted. Where the list of groups
/// says anything about the group, it decides; where it says nothing, or is
/// missing, the group has to be one of the target user's.
pub open spec fn runas_admits(
    runas: Option<RunAsView>,
    aliases: Seq<DefView<UserSpecifierView>>,
    user: UserView,
    group: GroupView,
) -> bool {
    let users = match runas {
        Some(r) => r.users,
        None => Seq::empty(),
    };
    let groups = match runas {
        Some(r) => r.groups,
        None => Seq::empty(),
    };
    &&& if users.len() == 0 {
        user.name == "root"@
    } else {
        decide::<UserSpecifier, User>(users, aliases, aliases.len(), user) == Some(true)
    }
    &&& match decide_group(groups, aliases, group) {
        Some(listed) => listed,
        None => in_group(user, group),
    }
}

/// What one part of a permission line says about a request: nothing unless its
/// hosts admit the host and its `runas` part admits the target; else what its
/// commands say.
pub open spec fn grant_verdict(grant: GrantView, policy: SudoersView, request: RequestView)
    -> Option<(bool, Flags)> {
    if decide::<Hostname, String>(
        grant.0,
        policy.aliases.host,
        policy.aliases.host.len(),
        request.invoker_host,
    ) == Some(true) && runas_admits(
        grant.1,
        policy.aliases.runas,
        request.target_user,
        request.target_group,
    ) {
        commands_verdict(grant.2, policy.aliases.cmnd, command_line(request))
    } else {
        None
    }
}

/// The texts of `parts`, with a space between each two.
pub open spec fn joined(parts: Seq<Seq<char>>) -> Seq<char>
    decreases parts.len(),
{
    if parts.len() == 0 {
        Seq::empty()
    } else if parts.len() == 1 {
        parts[0]
    } else {
        joined(parts.drop_last()) + seq![' '] + parts.last()
    }
}

/// The command of a request, as it is matched.
pub open spec fn command_line(request: RequestView) -> CommandLineView {
    CommandLineView { path: request.command_path, args: joined(request.command_args) }
}

/// What the parts of a permission line say: what the last part that says
/// anything says.
pub open spec fn grants_verdict(grants: Seq<GrantView>, policy: SudoersView, request: RequestView)
    -> Option<(bool, Flags)>
    decreases grants.len(),
{
    if grants.len() == 0 {
        None
    } else {
        match grant_verdict(grants.last(), policy, request) {
            Some(v) => Some(v),
            None => grants_verdict(grants.drop_last(), policy, request),
        }
    }
}

/// What a permission line says about a request: nothing unless its users admit
/// the invoker; else what its parts say.
pub open spec fn rule_verdict(rule: PermissionSpecView, policy: SudoersView, request: RequestView)
    -> Option<(bool, Flags)> {
    if decide::<UserSpecifier, User>(
        rule.users,
        policy.aliases.user,
        policy.aliases.user.len(),
        request.invoker_user,
    ) == Some(true) {
        grants_verdict(rule.permissions, policy, request)
    } else {
        None
    }
}

/// What the permission lines say: what the last line that says anything says.
pub open spec fn rules_verdict(
    rules: Seq<PermissionSpecView>,
    policy: SudoersView,
    request: RequestView,
) -> Option<(bool, Flags)>
    decreases rules.len(),
{
    if rules.len() == 0 {
        None
    } else {
        match rule_verdict(rules.last(), policy, request) {
            Some(v) => Some(v),
            None => rules_verdict(rules.drop_last(), policy, request),
        }
    }
}

/// The judgement on a request: allowed, on the terms that hold there, if the
/// last command of the policy that covers the request is not negated;
/// forbidden if it is negated or if no command covers the request.
pub open spec fn judgement(policy: SudoersView, request: RequestView) -> JudgementView {
    JudgementView {
        flags: match rules_verdict(policy.rules, policy, request) {
            Some((true, flags)) => Some(flags),
            _ => None,
        },
        settings: policy.settings,
    }
}

/// The policy with one more permission line at `at`.
pub open spec fn with_rule(policy: SudoersView, at: int, rule: PermissionSpecView) -> SudoersView {
    SudoersView { rules: policy.rules.insert(at, rule), ..policy }
}

/// A permission line that says nothing about a request can be put anywhere
/// into the policy without changing the judgement on that request.
pub proof fn lemma_silent_rule(
    policy: SudoersView,
    at: int,
    rule: PermissionSpecView,
    request: RequestView,
)
    requires
        0 <= at <= policy.rules.len(),
        rule_verdict(rule, policy, request) is None,
    ensures
        judgement(with_rule(policy, at, rule), request) == judgement(policy, request),
{
    let longer = with_rule(policy, at, rule);
    lemma_rules_same_tables(longer.rules, policy, longer, request);
    lemma_silent_rule_in(policy.rules, at, rule, policy, request);
}

/// What permission lines say depends on the policy only through its aliases.
pub proof fn lemma_rules_same_tables(
    rules: Seq<PermissionSpecView>,
    a: SudoersView,
    b: SudoersView,
    request: RequestView,
)
    requires
        a.aliases == b.aliases,
    ensures
        rules_verdict(rules, a, request) == rules_verdict(rules, b, request),
    decreases rules.len(),
{
    if rules.len() > 0 {
        lemma_grants_same_tables(rules.last().permissions, a, b, request);
        lemma_rules_same_tables(rules.drop_last(), a, b, request);
    }
}

/// What the parts of a permission line say depends on the policy only through
/// its aliases.
pub proof fn lemma_grants_same_tables(
    grants: Seq<GrantView>,
    a: SudoersView,
    b: SudoersView,
    request: RequestView,
)
    requires
        a.aliases == b.aliases,
    ensures
        grants_verdict(grants, a, request) == grants_verdict(grants, b, request),
    decreases grants.len(),
{
    if grants.len() > 0 {
        lemma_grants_same_tables(grants.drop_last(), a, b, request);
    }
}

proof fn lemma_silent_rule_in(
    rules: Seq<PermissionSpecView>,
    at: int,
    rule: PermissionSpecView,
    policy: SudoersView,
    request: RequestView,
)
    requires
        0 <= at <= rules.len(),
        rule_verdict(rule, policy, request) is None,
    ensures
        rules_verdict(rules.insert(at, rule), policy, request) == rules_verdict(
            rules,
            policy,
            request,
        ),
    decreases rules.len(),
{
    let longer = rules.insert(at, rule);
    if at == rules.len() {
        assert(longer.last() == rule);
        assert(longer.drop_last() == rules);
    } else {
        assert(longer.last() == rules.last());
        assert(longer.drop_last() == rules.drop_last().insert(at, rule));
        lemma_silent_rule_in(rules.drop_last(), at, rule, policy, request);
    }
}

/// A part of a permission line that says nothing about a request can be put
/// anywhere into the line without changing what the line says.
pub proof fn lemma_silent_grant(
    grants: Seq<GrantView>,
    at: int,
    grant: GrantView,
    policy: SudoersView,
    request: RequestView,
)
    requires
        0 <= at <= grants.len(),
        grant_verdict(grant, policy, request) is None,
    ensures
        grants_verdict(grants.insert(at, grant), policy, request) == grants_verdict(
            grants,
            policy,
            request,
        ),
    decreases grants.len(),
{
    let longer = grants.insert(at, grant);
    if at == grants.len() {
        assert(longer.last() == grant);
        assert(longer.drop_last() == grants);
    } else {
        assert(longer.last() == grants.last());
        assert(longer.drop_last() == grants.drop_last().insert(at, grant));
        lemma_silent_grant(grants.drop_last(), at, grant, policy, request);
    }
}

/// The judgement depends on the last permission line that says anything about
/// the request, and on nothing else: where the line at `k` says something and
/// no later line does, the policy says what that line says.
pub proof fn lemma_last_rule_decides(policy: SudoersView, request: RequestView, k: int)
    requires
        0 <= k < policy.rules.len(),
        rule_verdict(policy.rules[k], policy, request) is Some,
        forall|j: int|
            k < j < policy.rules.len() ==> rule_verdict(
                #[trigger] policy.rules[j],
                policy,
                request,
            ) is None,
    ensures
        rules_verdict(policy.rules, policy, request) == rule_verdict(
            policy.rules[k],
            policy,
            request,
        ),
{
    lemma_last_rule_in(policy.rules, policy, request, k);
}

proof fn lemma_last_rule_in(
    rules: Seq<PermissionSpecView>,
    policy: SudoersView,
    request: RequestView,
    k: int,
)
    requires
        0 <= k < rules.len(),
        rule_verdict(rules[k], policy, request) is Some,
        forall|j: int|
            k < j < rules.len() ==> rule_verdict(#[trigger] rules[j], policy, request) is None,
    ensures
        rules_verdict(rules, policy, request) == rule_verdict(rules[k], policy, request),
    decreases rules.len(),
{
    if k < rules.len() - 1 {
        assert(rule_verdict(rules[rules.len() - 1], policy, request) is None);
        assert forall|j: int| k < j < rules.drop_last().len() implies rule_verdict(
            #[trigger] rules.drop_last()[j],
            policy,
            request,
        ) is None by {
            assert(rules.drop_last()[j] == rules[j]);
        }
        lemma_last_rule_in(rules.drop_last(), policy, request, k);
    }
}

/// A command without tags that does not cover the command line can be put
/// anywhere into a list of commands without changing what the list says.
pub proof fn lemma_silent_command(
    cmds: Seq<CommandSpecView>,
    at: int,
    cmd: CommandSpecView,
    aliases: Seq<DefView<CommandView>>,
    line: CommandLineView,
)
    requires
        0 <= at <= cmds.len(),
        cmd.0.len() == 0,
        verdict_of::<Command, CommandLine>(cmd.1, aliases, aliases.len(), line) is None,
    ensures
        commands_verdict(cmds.insert(at, cmd), aliases, line) == commands_verdict(
            cmds,
            aliases,
            line,
        ),
        running_flags(cmds.insert(at, cmd)) == running_flags(cmds),
    decreases cmds.len(),
{
    let longer = cmds.insert(at, cmd);
    if at == cmds.len() {
        assert(longer.last() == cmd);
        assert(longer.drop_last() == cmds);
    } else {
        assert(longer.last() == cmds.last());
        assert(longer.drop_last() == cmds.drop_last().insert(at, cmd));
        lemma_silent_command(cmds.drop_last(), at, cmd, aliases, line);
    }
}

/// Whether a verdict admits or refuses, whatever its terms.
pub open spec fn sign_of(verdict: Option<(bool, Flags)>) -> Option<bool> {
    match verdict {
        Some((sign, _)) => Some(sign),
        None => None,
    }
}

/// A command that does not cover the command line can be put anywhere into a
/// list of commands without changing whether the list admits or refuses: its
/// tags can change only the terms.
pub proof fn lemma_silent_tagged_command(
    cmds: Seq<CommandSpecView>,
    at: int,
    cmd: CommandSpecView,
    aliases: Seq<DefView<CommandView>>,
    line: CommandLineView,
)
    requires
        0 <= at <= cmds.len(),
        verdict_of::<Command, CommandLine>(cmd.1, aliases, aliases.len(), line) is None,
    ensures
        sign_of(commands_verdict(cmds.insert(at, cmd), aliases, line)) == sign_of(
            commands_verdict(cmds, aliases, line),
        ),
    decreases cmds.len(),
{
    let longer = cmds.insert(at, cmd);
    if at == cmds.len() {
        assert(longer.last() == cmd);
        assert(longer.drop_last() == cmds);
    } else {
        assert(longer.last() == cmds.last());
        assert(longer.drop_last() == cmds.drop_last().insert(at, cmd));
        lemma_silent_tagged_command(cmds.drop_last(), at, cmd, aliases, line);
    }
}

fn flags_after(start: Flags, tags: &Vec<Tag>) -> (r: Flags)
    ensures
        r == tagged_flags(start, tags@),
{
    let mut flags = start;
    let mut i: usize = 0;
    assert(tags@.take(0) =~= Seq::<Tag>::empty());
    while i < tags.len()
        invariant
            i <= tags.len(),
            flags == tagged_flags(start, tags@.take(i as int)),
        decreases tags.len() - i,
    {
        assert(tags@.take(i + 1).drop_last() == tags@.take(i as int));
        match tags[i] {
            Tag::NoPasswd => {
                flags.passwd = false;
            },
            Tag::Timeout(t) => {
                flags.timeout = Some(t);
            },
        }
        i += 1;
    }
    assert(tags@.take(tags.len() as int) == tags@);
    flags
}

fn check_commands(cmds: &Vec<CommandSpec>, aliases: &Vec<Def<Command>>, line: &CommandLine) -> (r:
    Option<(bool, Flags)>)
    ensures
        r == commands_verdict(cmds.deep_view(), aliases.deep_view(), line.deep_view()),
{
    let mut flags = Flags { passwd: true, timeout: None };
    let mut last: Option<(bool, Flags)> = None;
    let mut i: usize = 0;
    assert(cmds.deep_view().take(0) =~= Seq::<CommandSpecView>::empty());
    while i < cmds.len()
        invariant
            i <= cmds.len(),
            flags == running_flags(cmds.deep_view().take(i as int)),
            last == commands_verdict(
                cmds.deep_view().take(i as int),
                aliases.deep_view(),
                line.deep_view(),
            ),
        decreases cmds.len() - i,
    {
        assert(cmds.deep_view().take(i + 1).drop_last() == cmds.deep_view().take(i as int));
        assert(cmds.deep_view().take(i + 1).last() == cmds@[i as int].deep_view());
        flags = flags_after(flags, &cmds[i].0);
        match entry_verdict::<Command, CommandLine>(&cmds[i].1, aliases, aliases.len(), line) {
            Some(b) => {
                last = Some((b, flags));
            },
            None => {},
        }
        i += 1;
    }
    assert(cmds.deep_view().take(cmds.len() as int) == cmds.deep_view());
    last
}

impl Matches<Group> for UserSpecifier {
    /// A user of a `Runas_Alias`, read as a group: its name or its id.
    open spec fn hits(item: UserSpecifierView, subject: GroupView) -> bool {
        match item {
            UserSpecifierView::User(id) => group_hits(id, subject),
            _ => false,
        }
    }

    fn hit(&self, subject: &Group) -> (r: bool) {
        match self {
            UserSpecifier::User(id) => id.hit(subject),
            _ => false,
        }
    }
}

fn check_group(list: &Vec<Spec<Identifier>>, aliases: &Vec<Def<UserSpecifier>>, group: &Group)
    -> (r: Option<bool>)
    ensures
        r == decide_group(list.deep_view(), aliases.deep_view(), group.deep_view()),
{
    let mut i = list.len();
    assert(list.deep_view().take(i as int) == list.deep_view());
    while i > 0
        invariant
            i <= list.len(),
            decide_group(list.deep_view().take(i as int), aliases.deep_view(), group.deep_view())
                == decide_group(list.deep_view(), aliases.deep_view(), group.deep_view()),
        decreases i,
    {
        i -= 1;
        assert(list.deep_view().take(i + 1).drop_last() == list.deep_view().take(i as int));
        assert(list.deep_view().take(i + 1).last() == list@[i as int].deep_view());
        let (sign, meta) = match &list[i] {
            Qualified::Allow(m) => (true, m),
            Qualified::Forbid(m) => (false, m),
        };
        let own = match meta {
            Meta::All => Some(sign),
            Meta::Only(id) => if id.hit(group) {
                Some(sign)
            } else {
                None
            },
            Meta::Alias(name) => match lookup(aliases, name.as_str()) {
                Some(k) => {
                    assert(aliases.deep_view()[k as int].1 == aliases@[k as int].1.deep_view());
                    match find_item::<UserSpecifier, Group>(
                        &aliases[k].1,
                        aliases,
                        aliases.len(),
                        group,
                    ) {
                        Some(inner) => Some(sign == inner),
                        None => None,
                    }
                },
                None => None,
            },
        };
        if own.is_some() {
            return own;
        }
    }
    None
}

fn is_in_group(user: &User, group: &Group) -> (r: bool)
    ensures
        r == in_group(user.deep_view(), group.deep_view()),
{
    if user.gid == group.gid {
        return true;
    }
    let listed = match &user.groups {
        Some(groups) => groups_have_gid(groups, group.gid),
        None => false,
    };
    listed || crate::settings::holds(&group.members, user.name.as_str())
}

fn check_runas(
    runas: &Option<RunAs>,
    aliases: &Vec<Def<UserSpecifier>>,
    user: &User,
    group: &Group,
) -> (r: bool)
    ensures
        r == runas_admits(
            runas.deep_view(),
            aliases.deep_view(),
            user.deep_view(),
            group.deep_view(),
        ),
{
    let user_ok = match runas {
        Some(r) if r.users.len() > 0 => {
            let found = find_item::<UserSpecifier, User>(&r.users, aliases, aliases.len(), user);
            found == Some(true)
        },
        _ => same_text(user.name.as_str(), "root"),
    };
    if !user_ok {
        return false;
    }
    let listed = match runas {
        Some(r) => check_group(&r.groups, aliases, group),
        None => None,
    };
    match listed {
        Some(admitted) => admitted,
        None => is_in_group(user, group),
    }
}

/// The texts of `parts`, with a space between each two.
pub fn join(parts: &Vec<String>) -> (r: Vec<char>)
    ensures
        r@ == joined(parts.deep_view()),
{
    let mut out: Vec<char> = Vec::new();
    let mut i: usize = 0;
    assert(parts.deep_view().take(0) =~= Seq::<Seq<char>>::empty());
    while i < parts.len()
        invariant
            i <= parts.len(),
            out@ == joined(parts.deep_view().take(i as int)),
        decreases parts.len() - i,
    {
        assert(parts.deep_view().take(i + 1).drop_last() == parts.deep_view().take(i as int));
        assert(parts.deep_view().take(i + 1).last() == parts@[i as int]@);
        assert(parts.deep_view().take(i + 1)[0] == parts@[0]@);
        let ghost before = out@;
        if i > 0 {
            out.push(' ');
        }
        let mut part = to_chars(parts[i].as_str());
        out.append(&mut part);
        assert(i > 0 ==> out@ =~= before + seq![' '] + parts@[i as int]@);
        assert(i == 0 ==> out@ =~= parts@[i as int]@);
        i += 1;
    }
    assert(parts.deep_view().take(parts.len() as int) == parts.deep_view());
    out
}

fn check_grants(grants: &Vec<Grant>, policy: &Sudoers, request: &Request, line: &CommandLine) -> (r:
    Option<(bool, Flags)>)
    requires
        line.deep_view() == command_line(request.deep_view()),
    ensures
        r == grants_verdict(grants.deep_view(), policy@, request.deep_view()),
{
    let mut i = grants.len();
    assert(grants.deep_view().take(i as int) == grants.deep_view());
    while i > 0
        invariant
            i <= grants.len(),
            line.deep_view() == command_line(request.deep_view()),
            grants_verdict(grants.deep_view().take(i as int), policy@, request.deep_view())
                == grants_verdict(grants.deep_view(), policy@, request.deep_view()),
        decreases i,
    {
        i -= 1;
        assert(grants.deep_view().take(i + 1).drop_last() == grants.deep_view().take(i as int));
        assert(grants.deep_view().take(i + 1).last() == grants@[i as int].deep_view());
        let grant = &grants[i];
        let host = find_item::<Hostname, String>(
            &grant.0,
            &policy.aliases.host,
            policy.aliases.host.len(),
            &request.invoker_host,
        );
        if host == Some(true) && check_runas(
            &grant.1,
            &policy.aliases.runas,
            &request.target_user,
            &request.target_group,
        ) {
            let own = check_commands(&grant.2, &policy.aliases.cmnd, line);
            if own.is_some() {
                return own;
            }
        }
    }
    None
}

fn check_rules(policy: &Sudoers, request: &Request, line: &CommandLine) -> (r: Option<
    (bool, Flags),
>)
    requires
        line.deep_view() == command_line(request.deep_view()),
    ensures
        r == rules_verdict(policy@.rules, policy@, request.deep_view()),
{
    let mut i = policy.rules.len();
    assert(policy@.rules.take(i as int) == policy@.rules);
    while i > 0
        invariant
            i <= policy.rules.len(),
            line.deep_view() == command_line(request.deep_view()),
            rules_verdict(policy@.rules.take(i as int), policy@, request.deep_view())
                == rules_verdict(policy@.rules, policy@, request.deep_view()),
        decreases i,
    {
        i -= 1;
        assert(policy@.rules.take(i + 1).drop_last() == policy@.rules.take(i as int));
        assert(policy@.rules.take(i + 1).last() == policy.rules@[i as int].deep_view());
        let rule = &policy.rules[i];
        let who = find_item::<UserSpecifier, User>(
            &rule.users,
            &policy.aliases.user,
            policy.aliases.user.len(),
            &request.invoker_user,
        );
        if who == Some(true) {
            let own = check_grants(&rule.permissions, policy, request, line);
            if own.is_some() {
                return own;
            }
        }
    }
    None
}

/// Judges a request by a policy.
pub fn evaluate(policy: &Sudoers, request: &Request) -> (r: Judgement)
    ensures
        r@ == judgement(policy@, request.deep_view()),
{
    let line = CommandLine {
        path: to_chars(request.command_path.as_str()),
        args: join(&request.command_args),
    };
    let flags = match check_rules(policy, request, &line) {
        Some((true, flags)) => Some(flags),
        _ => None,
    };
    Judgement { flags, settings: policy.settings.duplicate() }
}

} // verus!

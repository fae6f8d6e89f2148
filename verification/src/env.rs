//! The environment that a command runs in.
//!
//! It is built from the invoker's environment, from which only what the
//! settings and the request allow is taken over, and from the target user.

use crate::evaluate::{Group, GroupView, User, UserView};
use crate::policy::secure_path_of;
use crate::settings::{latest, same_text, Settings, SettingsView};
use crate::text::{decimal, decimal_chars, from_chars, has_prefix, starts_with, to_chars};
use vstd::prelude::*;

verus! {

/// An environment: names with their values, in order. Where a name occurs
/// more than once, its last value holds.
#[derive(Debug, Clone, PartialEq, Eq)]
pub struct Environment {
    pub vars: Vec<(String, String)>,
}

impl View for Environment {
    type V = Map<Seq<char>, Seq<char>>;

    open spec fn view(&self) -> Map<Seq<char>, Seq<char>> {
        bindings(self.vars.deep_view())
    }
}

/// The map that a sequence of names and values stands for.
pub open spec fn bindings(vars: Seq<(Seq<char>, Seq<char>)>) -> Map<Seq<char>, Seq<char>> {
    Map::new(|n: Seq<char>| latest(vars, n) is Some, |n: Seq<char>| latest(vars, n)->0)
}

/// No name occurs twice.
pub open spec fn distinct_names(vars: Seq<(Seq<char>, Seq<char>)>) -> bool {
    forall|i: int, j: int| 0 <= i < j < vars.len() ==> vars[i].0 != vars[j].0
}

/// What a request brings to the environment of its command.
#[derive(Debug, Clone, PartialEq, Eq)]
pub struct Context {
    pub hostname: String,
    /// The path of the command that was matched.
    pub command: String,
    pub current_user: User,
    pub target_user: User,
    pub target_group: Group,
    /// Whether the invoker asked to keep the whole environment.
    pub preserve_env: bool,
    /// Whether `HOME` is set to the target user's home in any case.
    pub set_home: bool,
    /// The names that the invoker asked to keep; if there are any, only these
    /// are kept on the invoker's request.
    pub preserve_env_list: Vec<String>,
}

/// The model of [`Context`].
pub struct ContextView {
    pub hostname: Seq<char>,
    pub command: Seq<char>,
    pub current_user: UserView,
    pub target_user: UserView,
    pub target_group: GroupView,
    pub preserve_env: bool,
    pub set_home: bool,
    pub preserve_env_list: Seq<Seq<char>>,
}

impl DeepView for Context {
    type V = ContextView;

    open spec fn deep_view(&self) -> ContextView {
        ContextView {
            hostname: self.hostname@,
            command: self.command@,
            current_user: self.current_user.deep_view(),
            target_user: self.target_user.deep_view(),
            target_group: self.target_group.deep_view(),
            preserve_env: self.preserve_env,
            set_home: self.set_home,
            preserve_env_list: self.preserve_env_list.deep_view(),
        }
    }
}

/// The names that are always taken over from the invoker's environment.
pub open spec fn always_kept(name: Seq<char>) -> bool {
    name == "TERM"@ || name == "PATH"@ || name == "DISPLAY"@ || name == "COLORS"@ || name
        == "HOSTNAME"@ || name == "LS_COLORS"@ || name == "LANG"@ || name == "LANGUAGE"@
        || has_prefix(name, "LC_"@)
}

/// A value that can be taken for neither a path nor a format: it holds no
/// newline, no `%` and no `/`.
pub open spec fn harmless(value: Seq<char>) -> bool {
    forall|i: int| 0 <= i < value.len() ==> value[i] != '\n' && value[i] != '%' && value[i] != '/'
}

/// Whether the invoker asked to keep the name: it is on the list of names to
/// preserve or, where there is no such list, everything is to be preserved.
pub open spec fn preserved(context: ContextView, name: Seq<char>) -> bool {
    if context.preserve_env_list.len() > 0 {
        context.preserve_env_list.contains(name)
    } else {
        context.preserve_env
    }
}

/// Whether a variable of the invoker is taken over. A name in `env_check` is
/// taken over if and only if its value is harmless; any other name if it is
/// always kept, is in `env_keep`, or the invoker asked to keep it.
pub open spec fn imported(
    name: Seq<char>,
    value: Seq<char>,
    context: ContextView,
    settings: SettingsView,
) -> bool {
    if settings.list_of("env_check"@).contains(name) {
        harmless(value)
    } else {
        always_kept(name) || settings.list_of("env_keep"@).contains(name) || preserved(
            context,
            name,
        )
    }
}

/// The variables that are taken over from the invoker's environment.
pub open spec fn imports(
    source: Map<Seq<char>, Seq<char>>,
    context: ContextView,
    settings: SettingsView,
) -> Map<Seq<char>, Seq<char>> {
    Map::new(
        |n: Seq<char>| source.contains_key(n) && imported(n, source[n], context, settings),
        |n: Seq<char>| source[n],
    )
}

/// `PATH` is the secure path, where the settings hold one.
pub open spec fn with_path(env: Map<Seq<char>, Seq<char>>, settings: SettingsView) -> Map<
    Seq<char>,
    Seq<char>,
> {
    match secure_path_of(settings) {
        Some(path) => env.insert("PATH"@, path),
        None => env,
    }
}

/// `HOME` is the target user's home, unless a `HOME` was taken over and the
/// request does not ask to set it.
pub open spec fn with_home(env: Map<Seq<char>, Seq<char>>, context: ContextView) -> Map<
    Seq<char>,
    Seq<char>,
> {
    if context.set_home || !env.contains_key("HOME"@) {
        env.insert("HOME"@, context.target_user.home)
    } else {
        env
    }
}

/// Where the mail of a user is kept.
pub open spec fn mail_path(name: Seq<char>) -> Seq<char> {
    "/var/mail/"@ + name
}

/// The variables that tell of the target user and of the invoker.
pub open spec fn with_identity(env: Map<Seq<char>, Seq<char>>, context: ContextView) -> Map<
    Seq<char>,
    Seq<char>,
> {
    env.insert("SHELL"@, context.target_user.shell).insert(
        "USER"@,
        context.target_user.name,
    ).insert("LOGNAME"@, context.target_user.name).insert(
        "MAIL"@,
        mail_path(context.target_user.name),
    ).insert("SUDO_USER"@, context.current_user.name).insert(
        "SUDO_UID"@,
        decimal(context.current_user.uid as nat),
    ).insert("SUDO_GID"@, decimal(context.current_user.gid as nat)).insert(
        "SUDO_COMMAND"@,
        context.command,
    )
}

/// The environment of the command: what is taken over from the invoker, then
/// `PATH`, `HOME` and the variables of the target user and the invoker, each
/// overriding what stood there before.
pub open spec fn target_environment(
    source: Map<Seq<char>, Seq<char>>,
    context: ContextView,
    settings: SettingsView,
) -> Map<Seq<char>, Seq<char>> {
    with_identity(
        with_home(with_path(imports(source, context, settings), settings), context),
        context,
    )
}

/// The names that [`build_environment`] sets whatever the invoker's
/// environment holds.
pub open spec fn always_set(name: Seq<char>, settings: SettingsView) -> bool {
    name == "HOME"@ || name == "SHELL"@ || name == "USER"@ || name == "LOGNAME"@ || name
        == "MAIL"@ || name == "SUDO_USER"@ || name == "SUDO_UID"@ || name == "SUDO_GID"@ || name
        == "SUDO_COMMAND"@ || (name == "PATH"@ && secure_path_of(settings) is Some)
}

/// A variable in `env_check` whose value holds a `/`, a `%` or a newline is not
/// in the environment of the command, unless it is one of the variables that
/// are set in any case.
pub proof fn lemma_unchecked_value_dropped(
    source: Map<Seq<char>, Seq<char>>,
    context: ContextView,
    settings: SettingsView,
    name: Seq<char>,
)
    requires
        settings.list_of("env_check"@).contains(name),
        source.contains_key(name),
        !harmless(source[name]),
        !always_set(name, settings),
    ensures
        !target_environment(source, context, settings).contains_key(name),
{
}

impl Environment {
    /// No name occurs twice.
    pub open spec fn wf(&self) -> bool {
        distinct_names(self.vars.deep_view())
    }

    /// The environment that holds nothing.
    pub fn new() -> (r: Environment)
        ensures
            r@ == Map::<Seq<char>, Seq<char>>::empty(),
            r.wf(),
    {
        let r = Environment { vars: Vec::new() };
        assert(r.vars.deep_view() =~= Seq::<(Seq<char>, Seq<char>)>::empty());
        assert(r@ =~= Map::<Seq<char>, Seq<char>>::empty());
        r
    }

    /// The place of the last entry for `name`, if there is one.
    fn position(&self, name: &str) -> (r: Option<usize>)
        ensures
            match r {
                Some(k) => k < self.vars.len() && self.vars.deep_view()[k as int].0 == name@
                    && latest(self.vars.deep_view(), name@) == Some(
                    self.vars.deep_view()[k as int].1,
                ) && forall|j: int|
                    k < j < self.vars.len() ==> self.vars.deep_view()[j].0 != name@,
                None => latest(self.vars.deep_view(), name@) is None && forall|k: int|
                    0 <= k < self.vars.len() ==> self.vars.deep_view()[k].0 != name@,
            },
    {
        let mut i = self.vars.len();
        assert(self.vars.deep_view().take(i as int) == self.vars.deep_view());
        while i > 0
            invariant
                i <= self.vars.len(),
                latest(self.vars.deep_view().take(i as int), name@) == latest(
                    self.vars.deep_view(),
                    name@,
                ),
                forall|k: int| i <= k < self.vars.len() ==> self.vars.deep_view()[k].0 != name@,
            decreases i,
        {
            i -= 1;
            assert(self.vars.deep_view().take(i + 1).drop_last() == self.vars.deep_view().take(
                i as int,
            ));
            if same_text(self.vars[i].0.as_str(), name) {
                return Some(i);
            }
        }
        None
    }

    /// The value of `name`, if it has one.
    pub fn get(&self, name: &str) -> (r: Option<&String>)
        ensures
            r.deep_view() == (if self@.contains_key(name@) {
                Some(self@[name@])
            } else {
                None
            }),
    {
        match self.position(name) {
            Some(k) => Some(&self.vars[k].1),
            None => None,
        }
    }

    /// Whether `name` has a value.
    pub fn contains(&self, name: &str) -> (r: bool)
        ensures
            r == self@.contains_key(name@),
    {
        self.position(name).is_some()
    }

    /// Gives `name` the value `value`.
    pub fn insert(&mut self, name: String, value: String)
        ensures
            final(self)@ == old(self)@.insert(name@, value@),
            old(self).wf() ==> final(self).wf(),
    {
        let ghost before = self.vars.deep_view();
        match self.position(name.as_str()) {
            Some(k) => {
                self.vars.set(k, (name, value));
                assert(self.vars.deep_view() =~= before.update(k as int, (name@, value@)));
                assert forall|n: Seq<char>| #[trigger]
                    latest(self.vars.deep_view(), n) == (if n == name@ {
                        Some(value@)
                    } else {
                        latest(before, n)
                    }) by {
                    lemma_updated(before, k as int, value@, n);
                }
                proof {
                    lemma_updated(before, k as int, value@, name@);
                }
                assert(self@ =~= old(self)@.insert(name@, value@));
            },
            None => {
                self.vars.push((name, value));
                assert(self.vars.deep_view() =~= before.push((name@, value@)));
                assert(self.vars.deep_view().drop_last() == before);
                assert(self@ =~= old(self)@.insert(name@, value@));
            },
        }
    }

    /// Takes the value of `name` away.
    pub fn remove(&mut self, name: &str)
        ensures
            final(self)@ == old(self)@.remove(name@),
            old(self).wf() ==> final(self).wf(),
    {
        let ghost before = self.vars.deep_view();
        let mut kept: Vec<(String, String)> = Vec::new();
        let mut i: usize = 0;
        assert(before.take(0) =~= Seq::<(Seq<char>, Seq<char>)>::empty());
        assert(kept.deep_view() =~= without_name(before.take(0), name@));
        while i < self.vars.len()
            invariant
                i <= self.vars.len(),
                self.vars.deep_view() == before,
                kept.deep_view() == without_name(before.take(i as int), name@),
            decreases self.vars.len() - i,
        {
            let ghost sofar = kept.deep_view();
            assert(before.take(i + 1).drop_last() == before.take(i as int));
            assert(before.take(i + 1).last() == self.vars@[i as int].deep_view());
            if !same_text(self.vars[i].0.as_str(), name) {
                let entry = (self.vars[i].0.clone(), self.vars[i].1.clone());
                kept.push(entry);
                assert(kept.deep_view() =~= sofar.push(entry.deep_view()));
            }
            i += 1;
        }
        assert(before.take(self.vars.len() as int) == before);
        self.vars = kept;
        assert forall|n: Seq<char>| #[trigger]
            latest(self.vars.deep_view(), n) == (if n == name@ {
                None
            } else {
                latest(before, n)
            }) by {
            lemma_without_name(before, name@, n);
        }
        proof {
            if distinct_names(before) {
                lemma_without_name_distinct(before, name@);
            }
        }
        assert(self@ =~= old(self)@.remove(name@));
    }
}

/// Giving the last entry for a name another value gives the name that value
/// and leaves every other name as it was.
pub proof fn lemma_updated(
    before: Seq<(Seq<char>, Seq<char>)>,
    k: int,
    value: Seq<char>,
    name: Seq<char>,
)
    requires
        0 <= k < before.len(),
        forall|j: int| k < j < before.len() ==> before[j].0 != before[k].0,
    ensures
        latest(before.update(k, (before[k].0, value)), name) == (if name == before[k].0 {
            Some(value)
        } else {
            latest(before, name)
        }),
        distinct_names(before) ==> distinct_names(before.update(k, (before[k].0, value))),
    decreases before.len(),
{
    let after = before.update(k, (before[k].0, value));
    if k == before.len() - 1 {
        assert(after.drop_last() =~= before.drop_last());
    } else {
        assert(after.last() == before.last());
        assert(after.drop_last() =~= before.drop_last().update(k, (before[k].0, value)));
        lemma_updated(before.drop_last(), k, value, name);
    }
    if distinct_names(before) {
        assert forall|i: int, j: int| 0 <= i < j < after.len() implies after[i].0 != after[j].0 by {
            assert(after[i].0 == before[i].0);
            assert(after[j].0 == before[j].0);
        }
    }
}

/// The entries whose name is not `name`, in order.
pub open spec fn without_name(vars: Seq<(Seq<char>, Seq<char>)>, name: Seq<char>) -> Seq<
    (Seq<char>, Seq<char>),
>
    decreases vars.len(),
{
    if vars.len() == 0 {
        Seq::empty()
    } else if vars.last().0 == name {
        without_name(vars.drop_last(), name)
    } else {
        without_name(vars.drop_last(), name).push(vars.last())
    }
}

/// Without the entries for a name, the name has no value and every other name
/// has the value that it had.
pub proof fn lemma_without_name(
    vars: Seq<(Seq<char>, Seq<char>)>,
    name: Seq<char>,
    other: Seq<char>,
)
    ensures
        latest(without_name(vars, name), other) == (if other == name {
            None
        } else {
            latest(vars, other)
        }),
    decreases vars.len(),
{
    if vars.len() > 0 {
        lemma_without_name(vars.drop_last(), name, other);
        if vars.last().0 != name {
            assert(without_name(vars, name).drop_last() == without_name(vars.drop_last(), name));
        }
    }
}

/// Taking entries away leaves no name twice where none was twice before.
pub proof fn lemma_without_name_distinct(vars: Seq<(Seq<char>, Seq<char>)>, name: Seq<char>)
    requires
        distinct_names(vars),
    ensures
        distinct_names(without_name(vars, name)),
        forall|i: int|
            0 <= i < without_name(vars, name).len() ==> exists|j: int|
                0 <= j < vars.len() && vars[j] == #[trigger] without_name(vars, name)[i],
    decreases vars.len(),
{
    if vars.len() > 0 {
        let rest = vars.drop_last();
        let kept = without_name(rest, name);
        lemma_without_name_distinct(rest, name);
        assert forall|i: int| 0 <= i < kept.len() implies exists|j: int|
            0 <= j < vars.len() && vars[j] == #[trigger] kept[i] by {
            let j = choose|j: int| 0 <= j < rest.len() && rest[j] == kept[i];
            assert(vars[j] == kept[i]);
        }
        if vars.last().0 != name {
            let all = kept.push(vars.last());
            assert forall|i: int, j: int| 0 <= i < j < all.len() implies all[i].0 != all[j].0 by {
                if j == all.len() - 1 {
                    let q = choose|q: int| 0 <= q < rest.len() && rest[q] == kept[i];
                    assert(vars[q].0 != vars[vars.len() - 1].0);
                }
            }
            assert forall|i: int| 0 <= i < all.len() implies exists|j: int|
                0 <= j < vars.len() && vars[j] == #[trigger] all[i] by {
                if i == all.len() - 1 {
                    assert(vars[vars.len() - 1] == all[i]);
                } else {
                    let j = choose|j: int| 0 <= j < rest.len() && rest[j] == kept[i];
                    assert(vars[j] == all[i]);
                }
            }
        }
    }
}

fn is_harmless(value: &str) -> (r: bool)
    ensures
        r == harmless(value@),
{
    let v = to_chars(value);
    let mut i: usize = 0;
    while i < v.len()
        invariant
            i <= v.len(),
            v@ == value@,
            forall|k: int| 0 <= k < i ==> v@[k] != '\n' && v@[k] != '%' && v@[k] != '/',
        decreases v.len() - i,
    {
        if v[i] == '\n' || v[i] == '%' || v[i] == '/' {
            return false;
        }
        i += 1;
    }
    true
}

fn is_always_kept(name: &str) -> (r: bool)
    ensures
        r == always_kept(name@),
{
    same_text(name, "TERM") || same_text(name, "PATH") || same_text(name, "DISPLAY") || same_text(
        name,
        "COLORS",
    ) || same_text(name, "HOSTNAME") || same_text(name, "LS_COLORS") || same_text(name, "LANG")
        || same_text(name, "LANGUAGE") || starts_with(&to_chars(name), "LC_")
}

fn is_preserved(context: &Context, name: &str) -> (r: bool)
    ensures
        r == preserved(context.deep_view(), name@),
{
    if context.preserve_env_list.len() > 0 {
        crate::settings::holds(&context.preserve_env_list, name)
    } else {
        context.preserve_env
    }
}

fn is_imported(name: &str, value: &str, context: &Context, settings: &Settings) -> (r: bool)
    ensures
        r == imported(name@, value@, context.deep_view(), settings@),
{
    if settings.list_holds("env_check", name) {
        is_harmless(value)
    } else {
        is_always_kept(name) || settings.list_holds("env_keep", name) || is_preserved(
            context,
            name,
        )
    }
}

fn text_of(n: u32) -> (r: String)
    ensures
        r@ == decimal(n as nat),
{
    from_chars(&decimal_chars(n))
}

fn mail_of(name: &str) -> (r: String)
    ensures
        r@ == mail_path(name@),
{
    let mut all = to_chars("/var/mail/");
    let mut tail = to_chars(name);
    all.append(&mut tail);
    from_chars(&all)
}

/// Builds the environment of a command from the invoker's environment, the
/// request and the settings of the policy.
pub fn build_environment(source: &Environment, context: &Context, settings: &Settings) -> (r:
    Environment)
    ensures
        r.wf(),
        r@ == target_environment(source@, context.deep_view(), settings@),
{
    let mut out = Environment::new();
    let mut i: usize = 0;
    assert(source.vars.deep_view().take(0) =~= Seq::<(Seq<char>, Seq<char>)>::empty());
    assert(out@ =~= imports(
        bindings(source.vars.deep_view().take(0)),
        context.deep_view(),
        settings@,
    ));
    while i < source.vars.len()
        invariant
            i <= source.vars.len(),
            out.wf(),
            out@ == imports(
                bindings(source.vars.deep_view().take(i as int)),
                context.deep_view(),
                settings@,
            ),
        decreases source.vars.len() - i,
    {
        let ghost seen = bindings(source.vars.deep_view().take(i as int));
        let name = &source.vars[i].0;
        let value = &source.vars[i].1;
        assert(source.vars.deep_view().take(i + 1).drop_last() == source.vars.deep_view().take(
            i as int,
        ));
        assert(source.vars.deep_view().take(i + 1).last() == (name@, value@));
        assert(bindings(source.vars.deep_view().take(i + 1)) =~= seen.insert(name@, value@));
        if is_imported(name.as_str(), value.as_str(), context, settings) {
            out.insert(name.clone(), value.clone());
        } else {
            out.remove(name.as_str());
        }
        assert(out@ =~= imports(seen.insert(name@, value@), context.deep_view(), settings@));
        i += 1;
    }
    assert(source.vars.deep_view().take(source.vars.len() as int) == source.vars.deep_view());
    match settings.text("secure_path") {
        Some(path) => {
            if path.as_str().unicode_len() > 0 {
                out.insert("PATH".to_owned(), path.clone());
            }
        },
        None => {},
    }
    if context.set_home || !out.contains("HOME") {
        out.insert("HOME".to_owned(), context.target_user.home.clone());
    }
    out.insert("SHELL".to_owned(), context.target_user.shell.clone());
    out.insert("USER".to_owned(), context.target_user.name.clone());
    out.insert("LOGNAME".to_owned(), context.target_user.name.clone());
    out.insert("MAIL".to_owned(), mail_of(context.target_user.name.as_str()));
    out.insert("SUDO_USER".to_owned(), context.current_user.name.clone());
    out.insert("SUDO_UID".to_owned(), text_of(context.current_user.uid));
    out.insert("SUDO_GID".to_owned(), text_of(context.current_user.gid));
    out.insert("SUDO_COMMAND".to_owned(), context.command.clone());
    out
}

/// Building the environment of a command from an environment that was built
/// for the same request and settings changes nothing.
pub proof fn lemma_environment_idempotent(
    source: Map<Seq<char>, Seq<char>>,
    context: ContextView,
    settings: SettingsView,
)
    ensures
        target_environment(target_environment(source, context, settings), context, settings)
            == target_environment(source, context, settings),
{
    let once = target_environment(source, context, settings);
    let twice = target_environment(once, context, settings);
    assert(once =~= twice);
}

} // verus!

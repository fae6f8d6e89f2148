//! What can be wrong with the aliases of a policy: an alias that is defined
//! twice, one that is used and not defined, and one whose definition comes
//! back to itself.

use crate::ast::{
    CommandSpec, CommandSpecView, Def, DefView, Grant, GrantView, Meta, MetaView, PermissionSpec,
    PermissionSpecView, Qualified, Spec, SpecView,
};
use crate::basic_parser::Fault;
use crate::evaluate::{find_def, lookup};
use crate::settings::same_text;
use crate::sudoers::{AliasTable, AliasTableView};
use vstd::prelude::*;

verus! {

/// Something that is wrong with a policy.
#[derive(Debug, Clone, PartialEq, Eq)]
pub enum Problem {
    /// The text is malformed at this line and column, both counted from zero.
    Syntax { fault: Fault, line: usize, column: usize },
    /// The alias is defined more than once.
    DuplicateAlias(String),
    /// The alias is used and not defined.
    UndefinedAlias(String),
    /// The definition of the alias leads back to itself, or to an alias whose
    /// definition does.
    CyclicAlias(String),
    /// The file or directory is to be read and was not supplied.
    MissingInclude(String),
    /// The file is to be read from too deep inside other files.
    IncludeNesting(String),
}

/// The model of [`Problem`].
pub enum ProblemView {
    Syntax { fault: Fault, line: int, column: int },
    DuplicateAlias(Seq<char>),
    UndefinedAlias(Seq<char>),
    CyclicAlias(Seq<char>),
    MissingInclude(Seq<char>),
    IncludeNesting(Seq<char>),
}

impl DeepView for Problem {
    type V = ProblemView;

    open spec fn deep_view(&self) -> ProblemView {
        match self {
            Problem::Syntax { fault, line, column } => ProblemView::Syntax {
                fault: *fault,
                line: *line as int,
                column: *column as int,
            },
            Problem::DuplicateAlias(n) => ProblemView::DuplicateAlias(n@),
            Problem::UndefinedAlias(n) => ProblemView::UndefinedAlias(n@),
            Problem::CyclicAlias(n) => ProblemView::CyclicAlias(n@),
            Problem::MissingInclude(n) => ProblemView::MissingInclude(n@),
            Problem::IncludeNesting(n) => ProblemView::IncludeNesting(n@),
        }
    }
}

/// The alias that an entry names, if it names one.
pub open spec fn alias_of<V>(entry: SpecView<V>) -> Option<Seq<char>> {
    match entry {
        Qualified::Allow(MetaView::Alias(n)) => Some(n),
        Qualified::Forbid(MetaView::Alias(n)) => Some(n),
        _ => None,
    }
}

fn alias_in<T>(entry: &Spec<T>) -> (r: Option<&String>) where T: DeepView
    ensures
        r.deep_view() == alias_of(entry.deep_view()),
{
    match entry {
        Qualified::Allow(Meta::Alias(n)) => Some(n),
        Qualified::Forbid(Meta::Alias(n)) => Some(n),
        _ => None,
    }
}

/// The aliases that are defined again: one problem for every definition
/// before which the same name was defined.
pub open spec fn duplicates<V>(defs: Seq<DefView<V>>) -> Seq<ProblemView>
    decreases defs.len(),
{
    if defs.len() == 0 {
        Seq::empty()
    } else if find_def(defs.drop_last(), defs.last().0) is Some {
        duplicates(defs.drop_last()).push(ProblemView::DuplicateAlias(defs.last().0))
    } else {
        duplicates(defs.drop_last())
    }
}

/// The aliases that a list names and the table does not define, in the order
/// of the list.
pub open spec fn undefined_in<V, W>(list: Seq<SpecView<V>>, defs: Seq<DefView<W>>) -> Seq<
    ProblemView,
>
    decreases list.len(),
{
    if list.len() == 0 {
        Seq::empty()
    } else {
        match alias_of(list.last()) {
            Some(n) => if find_def(defs, n) is None {
                undefined_in(list.drop_last(), defs).push(ProblemView::UndefinedAlias(n))
            } else {
                undefined_in(list.drop_last(), defs)
            },
            None => undefined_in(list.drop_last(), defs),
        }
    }
}

/// The aliases that the definitions in `some` name and the table does not
/// define.
pub open spec fn undefined_in_defs<V>(some: Seq<DefView<V>>, defs: Seq<DefView<V>>) -> Seq<
    ProblemView,
>
    decreases some.len(),
{
    if some.len() == 0 {
        Seq::empty()
    } else {
        undefined_in_defs(some.drop_last(), defs) + undefined_in(some.last().1, defs)
    }
}

/// The aliases that a list of commands names and the table does not define.
pub open spec fn undefined_in_commands<W>(cmds: Seq<CommandSpecView>, defs: Seq<DefView<W>>)
    -> Seq<ProblemView>
    decreases cmds.len(),
{
    if cmds.len() == 0 {
        Seq::empty()
    } else {
        undefined_in_commands(cmds.drop_last(), defs) + undefined_in(seq![cmds.last().1], defs)
    }
}

/// The aliases that one part of a permission line names and that are not
/// defined: in its hosts, its `runas` part and its commands.
pub open spec fn undefined_in_grant(grant: GrantView, tables: AliasTableView) -> Seq<ProblemView> {
    undefined_in(grant.0, tables.host) + (match grant.1 {
        Some(r) => undefined_in(r.users, tables.runas) + undefined_in(r.groups, tables.runas),
        None => Seq::empty(),
    }) + undefined_in_commands(grant.2, tables.cmnd)
}

/// The aliases that the parts of a permission line name and that are not
/// defined.
pub open spec fn undefined_in_grants(grants: Seq<GrantView>, tables: AliasTableView) -> Seq<
    ProblemView,
>
    decreases grants.len(),
{
    if grants.len() == 0 {
        Seq::empty()
    } else {
        undefined_in_grants(grants.drop_last(), tables) + undefined_in_grant(grants.last(), tables)
    }
}

/// The aliases that the permission lines name and that are not defined.
pub open spec fn undefined_in_rules(rules: Seq<PermissionSpecView>, tables: AliasTableView)
    -> Seq<ProblemView>
    decreases rules.len(),
{
    if rules.len() == 0 {
        Seq::empty()
    } else {
        undefined_in_rules(rules.drop_last(), tables) + undefined_in(
            rules.last().users,
            tables.user,
        ) + undefined_in_grants(rules.last().permissions, tables)
    }
}

/// Whether a list names the alias `name`.
pub open spec fn mentions<V>(list: Seq<SpecView<V>>, name: Seq<char>) -> bool {
    exists|k: int| 0 <= k < list.len() && alias_of(#[trigger] list[k]) == Some(name)
}

/// Whether following the aliases that the alias at `i` names comes to an end
/// within `fuel` steps.
pub open spec fn grounded_within<V>(defs: Seq<DefView<V>>, i: int, fuel: nat) -> bool
    decreases fuel,
{
    fuel > 0 && forall|j: int|
        0 <= j < defs.len() && mentions(defs[i].1, #[trigger] defs[j].0) ==> grounded_within(
            defs,
            j,
            (fuel - 1) as nat,
        )
}

/// Whether following the aliases that the alias at `i` names comes to an end:
/// its definition does not lead back to itself, nor to an alias whose
/// definition does.
pub open spec fn grounded<V>(defs: Seq<DefView<V>>, i: int) -> bool {
    exists|fuel: nat| grounded_within(defs, i, fuel)
}

/// The aliases among the first `n` that are not grounded, in order.
pub open spec fn cyclic<V>(defs: Seq<DefView<V>>, n: int) -> Seq<ProblemView>
    decreases n,
{
    if n <= 0 {
        Seq::empty()
    } else if grounded(defs, n - 1) {
        cyclic(defs, n - 1)
    } else {
        cyclic(defs, n - 1).push(ProblemView::CyclicAlias(defs[n - 1].0))
    }
}

/// What is wrong with one table of aliases.
pub open spec fn table_problems<V>(defs: Seq<DefView<V>>) -> Seq<ProblemView> {
    duplicates(defs) + undefined_in_defs(defs, defs) + cyclic(defs, defs.len() as int)
}

/// What is wrong with the aliases of a policy and with the use that its
/// permission lines make of them.
pub open spec fn alias_problems(rules: Seq<PermissionSpecView>, tables: AliasTableView) -> Seq<
    ProblemView,
> {
    table_problems(tables.user) + table_problems(tables.host) + table_problems(tables.cmnd)
        + table_problems(tables.runas) + undefined_in_rules(rules, tables)
}

/// More fuel does no harm.
pub proof fn lemma_grounded_more<V>(defs: Seq<DefView<V>>, i: int, fuel: nat, more: nat)
    requires
        grounded_within(defs, i, fuel),
        fuel <= more,
    ensures
        grounded_within(defs, i, more),
    decreases fuel,
{
    assert forall|j: int|
        0 <= j < defs.len() && mentions(defs[i].1, #[trigger] defs[j].0) implies grounded_within(
        defs,
        j,
        (more - 1) as nat,
    ) by {
        lemma_grounded_more(defs, j, (fuel - 1) as nat, (more - 1) as nat);
    }
}

/// The aliases marked in `placed` were placed one after the other, each only
/// after all the aliases that it names; `rank` tells when.
pub open spec fn placed_in_order<V>(defs: Seq<DefView<V>>, placed: Seq<bool>, rank: Seq<nat>)
    -> bool {
    &&& placed.len() == defs.len()
    &&& rank.len() == defs.len()
    &&& forall|i: int, j: int|
        #![trigger placed[i], defs[j]]
        0 <= i < defs.len() && 0 <= j < defs.len() && placed[i] && mentions(defs[i].1, defs[j].0)
            ==> placed[j] && rank[j] < rank[i]
}

/// An alias that was placed is grounded.
pub proof fn lemma_placed_grounded<V>(
    defs: Seq<DefView<V>>,
    placed: Seq<bool>,
    rank: Seq<nat>,
    i: int,
)
    requires
        placed_in_order(defs, placed, rank),
        0 <= i < defs.len(),
        placed[i],
    ensures
        grounded_within(defs, i, rank[i] + 1),
    decreases rank[i],
{
    assert forall|j: int|
        0 <= j < defs.len() && mentions(defs[i].1, #[trigger] defs[j].0) implies grounded_within(
        defs,
        j,
        rank[i],
    ) by {
        assert(placed[j] && rank[j] < rank[i]);
        lemma_placed_grounded(defs, placed, rank, j);
        lemma_grounded_more(defs, j, rank[j] + 1, rank[i]);
    }
}

/// Every alias that is not placed names an alias that is not placed.
pub open spec fn stuck<V>(defs: Seq<DefView<V>>, placed: Seq<bool>) -> bool {
    &&& placed.len() == defs.len()
    &&& forall|i: int|
        0 <= i < defs.len() && !#[trigger] placed[i] ==> exists|j: int|
            0 <= j < defs.len() && mentions(defs[i].1, #[trigger] defs[j].0) && !placed[j]
}

/// Where the placing is stuck, no alias that is left is grounded.
pub proof fn lemma_stuck_not_grounded<V>(
    defs: Seq<DefView<V>>,
    placed: Seq<bool>,
    i: int,
    fuel: nat,
)
    requires
        stuck(defs, placed),
        0 <= i < defs.len(),
        !placed[i],
    ensures
        !grounded_within(defs, i, fuel),
    decreases fuel,
{
    if fuel > 0 {
        let j = choose|j: int|
            0 <= j < defs.len() && mentions(defs[i].1, #[trigger] defs[j].0) && !placed[j];
        lemma_stuck_not_grounded(defs, placed, j, (fuel - 1) as nat);
    }
}

/// How many of the first `k` aliases are grounded within `fuel` steps.
pub open spec fn grounded_count<V>(defs: Seq<DefView<V>>, fuel: nat, k: int) -> int
    decreases k,
{
    if k <= 0 {
        0
    } else if grounded_within(defs, k - 1, fuel) {
        grounded_count(defs, fuel, k - 1) + 1
    } else {
        grounded_count(defs, fuel, k - 1)
    }
}

proof fn lemma_count_bounds<V>(defs: Seq<DefView<V>>, fuel: nat, k: int)
    requires
        0 <= k,
    ensures
        0 <= grounded_count(defs, fuel, k) <= k,
        grounded_count(defs, fuel, k) == k ==> forall|i: int|
            0 <= i < k ==> grounded_within(defs, i, fuel),
    decreases k,
{
    if k > 0 {
        lemma_count_bounds(defs, fuel, k - 1);
    }
}

proof fn lemma_count_grows<V>(defs: Seq<DefView<V>>, fuel: nat, k: int)
    requires
        0 <= k,
    ensures
        grounded_count(defs, fuel, k) <= grounded_count(defs, fuel + 1, k),
        (exists|i: int|
            0 <= i < k && grounded_within(defs, i, fuel + 1) && !grounded_within(defs, i, fuel))
            ==> grounded_count(defs, fuel, k) < grounded_count(defs, fuel + 1, k),
    decreases k,
{
    if k > 0 {
        lemma_count_grows(defs, fuel, k - 1);
        if grounded_within(defs, k - 1, fuel) {
            lemma_grounded_more(defs, k - 1, fuel, fuel + 1);
        }
        if exists|i: int|
            0 <= i < k && grounded_within(defs, i, fuel + 1) && !grounded_within(defs, i, fuel) {
            let i = choose|i: int|
                0 <= i < k && grounded_within(defs, i, fuel + 1) && !grounded_within(
                    defs,
                    i,
                    fuel,
                );
            if i < k - 1 {
                assert(0 <= i < k - 1 && grounded_within(defs, i, fuel + 1) && !grounded_within(
                    defs,
                    i,
                    fuel,
                ));
            }
        }
    }
}

/// One more step grounds no alias that `fuel` steps do not ground.
pub open spec fn settled<V>(defs: Seq<DefView<V>>, fuel: nat) -> bool {
    forall|i: int|
        0 <= i < defs.len() && grounded_within(defs, i, fuel + 1) ==> grounded_within(
            defs,
            i,
            fuel,
        )
}

proof fn lemma_settled_stays<V>(defs: Seq<DefView<V>>, fuel: nat, more: nat, i: int)
    requires
        settled(defs, fuel),
        0 <= i < defs.len(),
        grounded_within(defs, i, more),
    ensures
        grounded_within(defs, i, fuel),
    decreases more,
{
    if more > fuel + 1 {
        assert forall|j: int|
            0 <= j < defs.len() && mentions(
                defs[i].1,
                #[trigger] defs[j].0,
            ) implies grounded_within(defs, j, fuel) by {
            lemma_settled_stays(defs, fuel, (more - 1) as nat, j);
        }
        assert(grounded_within(defs, i, fuel + 1)) by {
            assert(fuel + 1 > 0);
        }
    } else if more <= fuel {
        lemma_grounded_more(defs, i, more, fuel);
    }
}

/// Within as many steps as the table holds aliases, the grounding settles:
/// each step before grounds at least one alias more.
proof fn lemma_settles_from<V>(defs: Seq<DefView<V>>, fuel: nat) -> (at: nat)
    requires
        fuel <= defs.len(),
        grounded_count(defs, fuel, defs.len() as int) >= fuel,
    ensures
        at <= defs.len(),
        settled(defs, at),
    decreases defs.len() - fuel,
{
    let n = defs.len() as int;
    lemma_count_bounds(defs, fuel, n);
    if settled(defs, fuel) {
        fuel
    } else if fuel == defs.len() {
        assert(grounded_count(defs, fuel, n) == n);
        assert(settled(defs, fuel));
        fuel
    } else {
        lemma_count_grows(defs, fuel, n);
        lemma_settles_from(defs, fuel + 1)
    }
}

/// An alias that is grounded at all is grounded within as many steps as the
/// table holds aliases.
pub proof fn lemma_grounded_in_time<V>(defs: Seq<DefView<V>>, i: int)
    requires
        0 <= i < defs.len(),
        grounded(defs, i),
    ensures
        grounded_within(defs, i, defs.len()),
{
    lemma_count_bounds(defs, 0, defs.len() as int);
    let at = lemma_settles_from(defs, 0);
    let fuel = choose|fuel: nat| grounded_within(defs, i, fuel);
    lemma_settled_stays(defs, at, fuel, i);
    lemma_grounded_more(defs, i, at, defs.len());
}

/// Where no alias is reported, every alias is grounded.
pub proof fn lemma_none_cyclic<V>(defs: Seq<DefView<V>>, n: int)
    requires
        0 <= n <= defs.len(),
        cyclic(defs, n).len() == 0,
    ensures
        forall|i: int| 0 <= i < n ==> grounded(defs, i),
    decreases n,
{
    if n > 0 {
        lemma_none_cyclic(defs, n - 1);
    }
}

fn note_duplicates<T: DeepView>(defs: &Vec<Def<T>>, out: &mut Vec<Problem>)
    ensures
        final(out).deep_view() == old(out).deep_view() + duplicates(defs.deep_view()),
{
    let ghost before = out.deep_view();
    let mut i: usize = 0;
    assert(defs.deep_view().take(0) =~= Seq::<DefView<T::V>>::empty());
    assert(out.deep_view() =~= before + duplicates(defs.deep_view().take(0)));
    while i < defs.len()
        invariant
            i <= defs.len(),
            out.deep_view() == before + duplicates(defs.deep_view().take(i as int)),
        decreases defs.len() - i,
    {
        let ghost sofar = out.deep_view();
        let ghost head = defs.deep_view().take(i as int);
        assert(defs.deep_view().take(i + 1).drop_last() == head);
        assert(defs.deep_view().take(i + 1).last() == defs@[i as int].deep_view());
        let mut earlier = false;
        let mut j: usize = 0;
        assert(head.take(0) =~= Seq::<DefView<T::V>>::empty());
        while j < i
            invariant
                j <= i < defs.len(),
                head == defs.deep_view().take(i as int),
                earlier == (find_def(head.take(j as int), defs@[i as int].0@) is Some),
            decreases i - j,
        {
            assert(head.take(j + 1).drop_last() == head.take(j as int));
            assert(head.take(j + 1).last() == defs@[j as int].deep_view());
            if same_text(defs[j].0.as_str(), defs[i].0.as_str()) {
                earlier = true;
            }
            j += 1;
        }
        assert(head.take(i as int) == head);
        if earlier {
            out.push(Problem::DuplicateAlias(defs[i].0.clone()));
            assert(out.deep_view() =~= sofar.push(ProblemView::DuplicateAlias(defs@[i as int].0@)));
            assert(out.deep_view() =~= before + duplicates(defs.deep_view().take(i + 1)));
        }
        i += 1;
    }
    assert(defs.deep_view().take(defs.len() as int) == defs.deep_view());
}

fn note_undefined<T: DeepView, U: DeepView>(
    list: &Vec<Spec<T>>,
    defs: &Vec<Def<U>>,
    out: &mut Vec<Problem>,
)
    ensures
        final(out).deep_view() == old(out).deep_view() + undefined_in(
            list.deep_view(),
            defs.deep_view(),
        ),
{
    let ghost before = out.deep_view();
    let mut i: usize = 0;
    assert(list.deep_view().take(0) =~= Seq::<SpecView<T::V>>::empty());
    assert(out.deep_view() =~= before + undefined_in(list.deep_view().take(0), defs.deep_view()));
    while i < list.len()
        invariant
            i <= list.len(),
            out.deep_view() == before + undefined_in(
                list.deep_view().take(i as int),
                defs.deep_view(),
            ),
        decreases list.len() - i,
    {
        let ghost sofar = out.deep_view();
        assert(list.deep_view().take(i + 1).drop_last() == list.deep_view().take(i as int));
        assert(list.deep_view().take(i + 1).last() == list@[i as int].deep_view());
        match alias_in(&list[i]) {
            Some(name) => {
                if lookup(defs, name.as_str()).is_none() {
                    out.push(Problem::UndefinedAlias(name.clone()));
                    assert(out.deep_view() =~= sofar.push(ProblemView::UndefinedAlias(name@)));
                    assert(out.deep_view() =~= before + undefined_in(
                        list.deep_view().take(i + 1),
                        defs.deep_view(),
                    ));
                }
            },
            None => {},
        }
        i += 1;
    }
    assert(list.deep_view().take(list.len() as int) == list.deep_view());
}

fn note_undefined_defs<T: DeepView>(defs: &Vec<Def<T>>, out: &mut Vec<Problem>)
    ensures
        final(out).deep_view() == old(out).deep_view() + undefined_in_defs(
            defs.deep_view(),
            defs.deep_view(),
        ),
{
    let ghost before = out.deep_view();
    let mut i: usize = 0;
    assert(defs.deep_view().take(0) =~= Seq::<DefView<T::V>>::empty());
    assert(out.deep_view() =~= before + undefined_in_defs(
        defs.deep_view().take(0),
        defs.deep_view(),
    ));
    while i < defs.len()
        invariant
            i <= defs.len(),
            out.deep_view() == before + undefined_in_defs(
                defs.deep_view().take(i as int),
                defs.deep_view(),
            ),
        decreases defs.len() - i,
    {
        let ghost sofar = undefined_in_defs(defs.deep_view().take(i as int), defs.deep_view());
        assert(defs.deep_view().take(i + 1).drop_last() == defs.deep_view().take(i as int));
        assert(defs.deep_view().take(i + 1).last() == defs@[i as int].deep_view());
        note_undefined(&defs[i].1, defs, out);
        assert(out.deep_view() =~= before + (sofar + undefined_in(
            defs@[i as int].1.deep_view(),
            defs.deep_view(),
        )));
        i += 1;
    }
    assert(defs.deep_view().take(defs.len() as int) == defs.deep_view());
}

fn note_undefined_commands<U: DeepView>(
    cmds: &Vec<CommandSpec>,
    defs: &Vec<Def<U>>,
    out: &mut Vec<Problem>,
)
    ensures
        final(out).deep_view() == old(out).deep_view() + undefined_in_commands(
            cmds.deep_view(),
            defs.deep_view(),
        ),
{
    let ghost before = out.deep_view();
    let mut i: usize = 0;
    assert(cmds.deep_view().take(0) =~= Seq::<CommandSpecView>::empty());
    assert(out.deep_view() =~= before + undefined_in_commands(
        cmds.deep_view().take(0),
        defs.deep_view(),
    ));
    while i < cmds.len()
        invariant
            i <= cmds.len(),
            out.deep_view() == before + undefined_in_commands(
                cmds.deep_view().take(i as int),
                defs.deep_view(),
            ),
        decreases cmds.len() - i,
    {
        let ghost sofar = out.deep_view();
        let ghost entry = cmds@[i as int].1.deep_view();
        assert(cmds.deep_view().take(i + 1).drop_last() == cmds.deep_view().take(i as int));
        assert(cmds.deep_view().take(i + 1).last() == cmds@[i as int].deep_view());
        assert(seq![entry].drop_last() =~= Seq::<SpecView<crate::ast::CommandView>>::empty());
        assert(seq![entry].last() == entry);
        match alias_in(&cmds[i].1) {
            Some(name) => {
                if lookup(defs, name.as_str()).is_none() {
                    out.push(Problem::UndefinedAlias(name.clone()));
                    assert(out.deep_view() =~= sofar.push(ProblemView::UndefinedAlias(name@)));
                }
            },
            None => {},
        }
        assert(undefined_in(seq![entry].drop_last(), defs.deep_view()) =~= Seq::<
            ProblemView,
        >::empty());
        assert(out.deep_view() =~= sofar + undefined_in(seq![entry], defs.deep_view()));
        assert(out.deep_view() =~= before + undefined_in_commands(
            cmds.deep_view().take(i + 1),
            defs.deep_view(),
        ));
        i += 1;
    }
    assert(cmds.deep_view().take(cmds.len() as int) == cmds.deep_view());
}

fn note_undefined_grant(grant: &Grant, tables: &AliasTable, out: &mut Vec<Problem>)
    ensures
        final(out).deep_view() == old(out).deep_view() + undefined_in_grant(
            grant.deep_view(),
            tables.deep_view(),
        ),
{
    let ghost before = out.deep_view();
    note_undefined(&grant.0, &tables.host, out);
    let ghost hosts = undefined_in(grant.0.deep_view(), tables.host.deep_view());
    let ghost middle = match grant.deep_view().1 {
        Some(r) => undefined_in(r.users, tables.runas.deep_view()) + undefined_in(
            r.groups,
            tables.runas.deep_view(),
        ),
        None => Seq::empty(),
    };
    match &grant.1 {
        Some(r) => {
            note_undefined(&r.users, &tables.runas, out);
            note_undefined(&r.groups, &tables.runas, out);
        },
        None => {},
    }
    assert(out.deep_view() =~= before + hosts + middle);
    note_undefined_commands(&grant.2, &tables.cmnd, out);
    assert(out.deep_view() =~= before + (hosts + middle + undefined_in_commands(
        grant.2.deep_view(),
        tables.cmnd.deep_view(),
    )));
}

fn note_undefined_grants(grants: &Vec<Grant>, tables: &AliasTable, out: &mut Vec<Problem>)
    ensures
        final(out).deep_view() == old(out).deep_view() + undefined_in_grants(
            grants.deep_view(),
            tables.deep_view(),
        ),
{
    let ghost before = out.deep_view();
    let mut i: usize = 0;
    assert(grants.deep_view().take(0) =~= Seq::<GrantView>::empty());
    assert(out.deep_view() =~= before + undefined_in_grants(
        grants.deep_view().take(0),
        tables.deep_view(),
    ));
    while i < grants.len()
        invariant
            i <= grants.len(),
            out.deep_view() == before + undefined_in_grants(
                grants.deep_view().take(i as int),
                tables.deep_view(),
            ),
        decreases grants.len() - i,
    {
        let ghost sofar = undefined_in_grants(
            grants.deep_view().take(i as int),
            tables.deep_view(),
        );
        assert(grants.deep_view().take(i + 1).drop_last() == grants.deep_view().take(i as int));
        assert(grants.deep_view().take(i + 1).last() == grants@[i as int].deep_view());
        note_undefined_grant(&grants[i], tables, out);
        assert(out.deep_view() =~= before + (sofar + undefined_in_grant(
            grants@[i as int].deep_view(),
            tables.deep_view(),
        )));
        i += 1;
    }
    assert(grants.deep_view().take(grants.len() as int) == grants.deep_view());
}

fn note_undefined_rules(rules: &Vec<PermissionSpec>, tables: &AliasTable, out: &mut Vec<Problem>)
    ensures
        final(out).deep_view() == old(out).deep_view() + undefined_in_rules(
            rules.deep_view(),
            tables.deep_view(),
        ),
{
    let ghost before = out.deep_view();
    let mut i: usize = 0;
    assert(rules.deep_view().take(0) =~= Seq::<PermissionSpecView>::empty());
    assert(out.deep_view() =~= before + undefined_in_rules(
        rules.deep_view().take(0),
        tables.deep_view(),
    ));
    while i < rules.len()
        invariant
            i <= rules.len(),
            out.deep_view() == before + undefined_in_rules(
                rules.deep_view().take(i as int),
                tables.deep_view(),
            ),
        decreases rules.len() - i,
    {
        let ghost sofar = undefined_in_rules(rules.deep_view().take(i as int), tables.deep_view());
        assert(rules.deep_view().take(i + 1).drop_last() == rules.deep_view().take(i as int));
        assert(rules.deep_view().take(i + 1).last() == rules@[i as int].deep_view());
        note_undefined(&rules[i].users, &tables.user, out);
        note_undefined_grants(&rules[i].permissions, tables, out);
        assert(out.deep_view() =~= before + (sofar + undefined_in(
            rules@[i as int].users.deep_view(),
            tables.user.deep_view(),
        ) + undefined_in_grants(rules@[i as int].permissions.deep_view(), tables.deep_view())));
        i += 1;
    }
    assert(rules.deep_view().take(rules.len() as int) == rules.deep_view());
}

/// Whether every alias that the alias at `i` names is placed.
pub open spec fn ready<V>(defs: Seq<DefView<V>>, i: int, placed: Seq<bool>) -> bool {
    forall|j: int| 0 <= j < defs.len() && mentions(defs[i].1, #[trigger] defs[j].0) ==> placed[j]
}

fn is_ready<T: DeepView>(defs: &Vec<Def<T>>, i: usize, placed: &Vec<bool>) -> (r: bool)
    requires
        i < defs.len(),
        placed.len() == defs.len(),
    ensures
        r == ready(defs.deep_view(), i as int, placed@),
{
    let list = &defs[i].1;
    assert(defs.deep_view()[i as int].1 == list.deep_view());
    let mut k: usize = 0;
    while k < list.len()
        invariant
            k <= list.len(),
            i < defs.len(),
            defs.deep_view()[i as int].1 == list.deep_view(),
            placed.len() == defs.len(),
            forall|m: int, j: int|
                #![trigger list.deep_view()[m], defs.deep_view()[j]]
                0 <= m < k && 0 <= j < defs.len() && alias_of(list.deep_view()[m]) == Some(
                    defs.deep_view()[j].0,
                ) ==> placed@[j],
        decreases list.len() - k,
    {
        assert(list.deep_view()[k as int] == list@[k as int].deep_view());
        match alias_in(&list[k]) {
            Some(name) => {
                let mut j: usize = 0;
                while j < defs.len()
                    invariant
                        j <= defs.len(),
                        k < list.len(),
                        i < defs.len(),
                        defs.deep_view()[i as int].1 == list.deep_view(),
                        placed.len() == defs.len(),
                        alias_of(list.deep_view()[k as int]) == Some(name@),
                        forall|q: int|
                            0 <= q < j && #[trigger] defs.deep_view()[q].0 == name@ ==> placed@[q],
                    decreases defs.len() - j,
                {
                    assert(defs.deep_view()[j as int].0 == defs@[j as int].0@);
                    if same_text(defs[j].0.as_str(), name.as_str()) && !placed[j] {
                        assert(mentions(list.deep_view(), defs.deep_view()[j as int].0));
                        return false;
                    }
                    j += 1;
                }
            },
            None => {},
        }
        k += 1;
    }
    true
}

/// How many entries are `false`.
pub open spec fn unplaced(placed: Seq<bool>) -> nat
    decreases placed.len(),
{
    if placed.len() == 0 {
        0
    } else {
        unplaced(placed.drop_last()) + if placed.last() {
            0nat
        } else {
            1nat
        }
    }
}

/// Placing one more alias leaves fewer to place.
pub proof fn lemma_unplaced_less(placed: Seq<bool>, i: int)
    requires
        0 <= i < placed.len(),
        !placed[i],
    ensures
        unplaced(placed.update(i, true)) + 1 == unplaced(placed),
    decreases placed.len(),
{
    if i == placed.len() - 1 {
        assert(placed.update(i, true).drop_last() == placed.drop_last());
    } else {
        assert(placed.update(i, true).drop_last() == placed.drop_last().update(i, true));
        lemma_unplaced_less(placed.drop_last(), i);
    }
}

fn note_cyclic<T: DeepView>(defs: &Vec<Def<T>>, out: &mut Vec<Problem>)
    ensures
        final(out).deep_view() == old(out).deep_view() + cyclic(
            defs.deep_view(),
            defs.len() as int,
        ),
{
    let n = defs.len();
    let mut placed: Vec<bool> = Vec::new();
    let mut k: usize = 0;
    while k < n
        invariant
            k <= n,
            placed.len() == k,
            forall|q: int| 0 <= q < k ==> !placed@[q],
        decreases n - k,
    {
        placed.push(false);
        k += 1;
    }
    let ghost mut rank: Seq<nat> = Seq::new(n as nat, |q: int| 0nat);
    let ghost mut time: nat = 0;
    loop
        invariant
            n == defs.len(),
            placed.len() == n,
            placed_in_order(defs.deep_view(), placed@, rank),
            forall|q: int| 0 <= q < n && placed@[q] ==> rank[q] < time,
        ensures
            stuck(defs.deep_view(), placed@),
        decreases unplaced(placed@),
    {
        let ghost start = placed@;
        let mut progress = false;
        let mut i: usize = 0;
        while i < n
            invariant
                i <= n,
                n == defs.len(),
                placed.len() == n,
                start.len() == n,
                placed_in_order(defs.deep_view(), placed@, rank),
                forall|q: int| 0 <= q < n && placed@[q] ==> rank[q] < time,
                progress ==> unplaced(placed@) < unplaced(start),
                !progress ==> placed@ == start,
                !progress ==> forall|q: int|
                    0 <= q < i && !#[trigger] placed@[q] ==> !ready(defs.deep_view(), q, placed@),
            decreases n - i,
        {
            if !placed[i] && is_ready(defs, i, &placed) {
                proof {
                    lemma_unplaced_less(placed@, i as int);
                    rank = rank.update(i as int, time);
                    time = time + 1;
                }
                placed.set(i, true);
                progress = true;
            }
            i += 1;
        }
        if !progress {
            break ;
        }
    }
    let ghost before = out.deep_view();
    let mut i: usize = 0;
    assert(out.deep_view() =~= before + cyclic(defs.deep_view(), 0));
    while i < n
        invariant
            i <= n,
            n == defs.len(),
            placed.len() == n,
            placed_in_order(defs.deep_view(), placed@, rank),
            stuck(defs.deep_view(), placed@),
            out.deep_view() == before + cyclic(defs.deep_view(), i as int),
        decreases n - i,
    {
        let ghost sofar = out.deep_view();
        if placed[i] {
            proof {
                lemma_placed_grounded(defs.deep_view(), placed@, rank, i as int);
            }
        } else {
            assert forall|fuel: nat| !grounded_within(defs.deep_view(), i as int, fuel) by {
                lemma_stuck_not_grounded(defs.deep_view(), placed@, i as int, fuel);
            }
            out.push(Problem::CyclicAlias(defs[i].0.clone()));
            assert(out.deep_view() =~= sofar.push(ProblemView::CyclicAlias(defs@[i as int].0@)));
            assert(out.deep_view() =~= before + cyclic(defs.deep_view(), i + 1));
        }
        i += 1;
    }
}

fn note_table<T: DeepView>(defs: &Vec<Def<T>>, out: &mut Vec<Problem>)
    ensures
        final(out).deep_view() == old(out).deep_view() + table_problems(defs.deep_view()),
{
    let ghost before = out.deep_view();
    note_duplicates(defs, out);
    note_undefined_defs(defs, out);
    note_cyclic(defs, out);
    assert(out.deep_view() =~= before + table_problems(defs.deep_view()));
}

/// Finds what is wrong with the aliases of a policy and with the use that its
/// permission lines make of them.
pub fn check_aliases(rules: &Vec<PermissionSpec>, tables: &AliasTable) -> (r: Vec<Problem>)
    ensures
        r.deep_view() == alias_problems(rules.deep_view(), tables.deep_view()),
{
    let mut out: Vec<Problem> = Vec::new();
    assert(out.deep_view() =~= Seq::<ProblemView>::empty());
    note_table(&tables.user, &mut out);
    note_table(&tables.host, &mut out);
    note_table(&tables.cmnd, &mut out);
    note_table(&tables.runas, &mut out);
    note_undefined_rules(rules, tables, &mut out);
    assert(out.deep_view() =~= alias_problems(rules.deep_view(), tables.deep_view()));
    out
}

} // verus!

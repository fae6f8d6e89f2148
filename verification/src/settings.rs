//! The settings that `Defaults` lines add up to.
//!
//! A setting is a flag, a text or a list. Contracts speak of the settings as a
//! set of flags, a map from names to texts and a map from names to sets of
//! entries.

use crate::ast::{DefaultValue, DefaultValueView, Mode};
use crate::text::{same_chars, to_chars};
use vstd::prelude::*;

verus! {

/// The model of [`Settings`].
pub struct SettingsView {
    /// The flags that are switched on.
    pub flags: Set<Seq<char>>,
    /// The texts that were assigned.
    pub str_value: Map<Seq<char>, Seq<char>>,
    /// The lists that were assigned to, added to or removed from.
    pub list: Map<Seq<char>, Set<Seq<char>>>,
}

/// The entries of a sequence, as a set.
pub open spec fn elems(v: Seq<Seq<char>>) -> Set<Seq<char>> {
    Set::new(|x: Seq<char>| v.contains(x))
}

impl SettingsView {
    /// No flag is on and nothing was assigned.
    pub open spec fn empty() -> SettingsView {
        SettingsView { flags: Set::empty(), str_value: Map::empty(), list: Map::empty() }
    }

    /// The entries of the list `name`; a list that was never mentioned is empty.
    pub open spec fn list_of(self, name: Seq<char>) -> Set<Seq<char>> {
        if self.list.contains_key(name) {
            self.list[name]
        } else {
            Set::empty()
        }
    }

    /// The settings after one `Defaults` line.
    pub open spec fn step(self, name: Seq<char>, value: DefaultValueView) -> SettingsView {
        match value {
            DefaultValueView::Flag(on) => SettingsView {
                flags: if on {
                    self.flags.insert(name)
                } else {
                    self.flags.remove(name)
                },
                ..self
            },
            DefaultValueView::Text(t) => SettingsView {
                str_value: self.str_value.insert(name, t),
                ..self
            },
            DefaultValueView::List(Mode::Assign, v) => SettingsView {
                list: self.list.insert(name, elems(v)),
                ..self
            },
            DefaultValueView::List(Mode::Add, v) => SettingsView {
                list: self.list.insert(name, self.list_of(name) + elems(v)),
                ..self
            },
            DefaultValueView::List(Mode::Del, v) => SettingsView {
                list: self.list.insert(name, self.list_of(name) - elems(v)),
                ..self
            },
        }
    }
}

/// Adding entries to a list and then removing the same entries restores the
/// list, provided that none of them was in the list before. Other lists, the
/// flags and the texts are as they were after the addition.
pub proof fn lemma_add_then_del_restores(s: SettingsView, name: Seq<char>, v: Seq<Seq<char>>)
    requires
        elems(v).disjoint(s.list_of(name)),
    ensures
        s.step(name, DefaultValueView::List(Mode::Add, v)).step(
            name,
            DefaultValueView::List(Mode::Del, v),
        ).list_of(name) == s.list_of(name),
        forall|other: Seq<char>|
            other != name ==> #[trigger] s.step(name, DefaultValueView::List(Mode::Add, v)).step(
                name,
                DefaultValueView::List(Mode::Del, v),
            ).list_of(other) == s.list_of(other),
        s.step(name, DefaultValueView::List(Mode::Add, v)).step(
            name,
            DefaultValueView::List(Mode::Del, v),
        ).flags == s.flags,
        s.step(name, DefaultValueView::List(Mode::Add, v)).step(
            name,
            DefaultValueView::List(Mode::Del, v),
        ).str_value == s.str_value,
{
    let added = s.step(name, DefaultValueView::List(Mode::Add, v));
    let removed = added.step(name, DefaultValueView::List(Mode::Del, v));
    assert(added.list_of(name) == s.list_of(name) + elems(v));
    assert(removed.list_of(name) =~= s.list_of(name));
}

/// What the entries for `name` in a log add up to: the last one counts.
pub open spec fn latest<V>(log: Seq<(Seq<char>, V)>, name: Seq<char>) -> Option<V>
    decreases log.len(),
{
    if log.len() == 0 {
        None
    } else if log.last().0 == name {
        Some(log.last().1)
    } else {
        latest(log.drop_last(), name)
    }
}

/// The settings of a policy. Each field is a log of assignments in the order of
/// the policy: the last entry for a name is the one that holds.
#[derive(Debug, Clone, PartialEq, Eq)]
pub struct Settings {
    pub flags: Vec<(String, bool)>,
    pub str_value: Vec<(String, String)>,
    pub list: Vec<(String, Vec<String>)>,
}

impl View for Settings {
    type V = SettingsView;

    open spec fn view(&self) -> SettingsView {
        SettingsView {
            flags: Set::new(|n: Seq<char>| latest(self.flags.deep_view(), n) == Some(true)),
            str_value: Map::new(
                |n: Seq<char>| latest(self.str_value.deep_view(), n) is Some,
                |n: Seq<char>| latest(self.str_value.deep_view(), n)->0,
            ),
            list: Map::new(
                |n: Seq<char>| latest(self.list.deep_view(), n) is Some,
                |n: Seq<char>| elems(latest(self.list.deep_view(), n)->0),
            ),
        }
    }
}

/// Whether two texts are the same.
pub fn same_text(a: &str, b: &str) -> (r: bool)
    ensures
        r == (a@ == b@),
{
    let x = to_chars(a);
    let y = to_chars(b);
    same_chars(&x, &y)
}

/// Whether `x` is among `v`.
pub fn holds(v: &Vec<String>, x: &str) -> (r: bool)
    ensures
        r == v.deep_view().contains(x@),
{
    let mut i: usize = 0;
    while i < v.len()
        invariant
            i <= v.len(),
            forall|k: int| 0 <= k < i ==> v.deep_view()[k] != x@,
        decreases v.len() - i,
    {
        if same_text(v[i].as_str(), x) {
            assert(v.deep_view()[i as int] == x@);
            return true;
        }
        i += 1;
    }
    false
}

fn copy_of(v: &Vec<String>) -> (r: Vec<String>)
    ensures
        r.deep_view() == v.deep_view(),
{
    let mut out: Vec<String> = Vec::new();
    let mut i: usize = 0;
    while i < v.len()
        invariant
            i <= v.len(),
            out.deep_view() == v.deep_view().take(i as int),
        decreases v.len() - i,
    {
        let ghost before = out.deep_view();
        let c = v[i].clone();
        out.push(c);
        i += 1;
        assert(out.deep_view() =~= before.push(c@));
        assert(v.deep_view().take(i as int) =~= v.deep_view().take(i - 1).push(v@[i - 1]@));
    }
    assert(v.deep_view().take(v.len() as int) == v.deep_view());
    out
}

/// The entries of `a` followed by those of `b`.
fn joined(a: &Vec<String>, b: &Vec<String>) -> (r: Vec<String>)
    ensures
        elems(r.deep_view()) == elems(a.deep_view()) + elems(b.deep_view()),
{
    let mut out = copy_of(a);
    let mut i: usize = 0;
    assert(b.deep_view().take(0) =~= Seq::<Seq<char>>::empty());
    assert(elems(out.deep_view()) =~= elems(a.deep_view()) + elems(b.deep_view().take(0)));
    while i < b.len()
        invariant
            i <= b.len(),
            elems(out.deep_view()) == elems(a.deep_view()) + elems(b.deep_view().take(i as int)),
        decreases b.len() - i,
    {
        let ghost before = out.deep_view();
        out.push(b[i].clone());
        i += 1;
        assert(out.deep_view() =~= before.push(b.deep_view()[i - 1]));
        assert(b.deep_view().take(i as int) == b.deep_view().take(i - 1).push(
            b.deep_view()[i - 1],
        ));
        assert forall|x: Seq<char>| #[trigger]
            elems(out.deep_view()).contains(x) == (elems(a.deep_view()) + elems(
                b.deep_view().take(i as int),
            )).contains(x) by {
            lemma_pushed(before, b.deep_view()[i - 1], x);
            lemma_pushed(b.deep_view().take(i - 1), b.deep_view()[i - 1], x);
            assert(elems(before).contains(x) == (elems(a.deep_view()) + elems(
                b.deep_view().take(i - 1),
            )).contains(x));
        }
        assert(elems(out.deep_view()) =~= elems(a.deep_view()) + elems(
            b.deep_view().take(i as int),
        ));
    }
    assert(b.deep_view().take(b.len() as int) == b.deep_view());
    out
}

/// A sequence with one more entry holds what it held before, and that entry.
pub proof fn lemma_pushed(v: Seq<Seq<char>>, e: Seq<char>, x: Seq<char>)
    ensures
        v.push(e).contains(x) == (v.contains(x) || x == e),
{
    if v.contains(x) {
        let k = choose|k: int| 0 <= k < v.len() && v[k] == x;
        assert(v.push(e)[k] == x);
    }
    if x == e {
        assert(v.push(e)[v.len() as int] == x);
    }
    if v.push(e).contains(x) {
        let k = choose|k: int| 0 <= k < v.push(e).len() && v.push(e)[k] == x;
        if k < v.len() {
            assert(v[k] == x);
        }
    }
}

/// The entries of `a` that are not among `b`.
fn without(a: &Vec<String>, b: &Vec<String>) -> (r: Vec<String>)
    ensures
        elems(r.deep_view()) == elems(a.deep_view()) - elems(b.deep_view()),
{
    let mut out: Vec<String> = Vec::new();
    let mut i: usize = 0;
    assert(a.deep_view().take(0) =~= Seq::<Seq<char>>::empty());
    assert(elems(out.deep_view()) =~= elems(a.deep_view().take(0)) - elems(b.deep_view()));
    while i < a.len()
        invariant
            i <= a.len(),
            elems(out.deep_view()) == elems(a.deep_view().take(i as int)) - elems(b.deep_view()),
        decreases a.len() - i,
    {
        let ghost before = out.deep_view();
        let ghost e = a.deep_view()[i as int];
        let keep = !holds(b, a[i].as_str());
        if keep {
            out.push(a[i].clone());
            assert(out.deep_view() =~= before.push(e));
        }
        i += 1;
        assert(a.deep_view().take(i as int) == a.deep_view().take(i - 1).push(e));
        assert forall|x: Seq<char>| #[trigger]
            elems(out.deep_view()).contains(x) == (elems(a.deep_view().take(i as int)) - elems(
                b.deep_view(),
            )).contains(x) by {
            lemma_pushed(before, e, x);
            lemma_pushed(a.deep_view().take(i - 1), e, x);
            assert(elems(before).contains(x) == (elems(a.deep_view().take(i - 1)) - elems(
                b.deep_view(),
            )).contains(x));
        }
        assert(elems(out.deep_view()) =~= elems(a.deep_view().take(i as int)) - elems(
            b.deep_view(),
        ));
    }
    assert(a.deep_view().take(a.len() as int) == a.deep_view());
    out
}

impl Settings {
    /// The same settings once more.
    pub fn duplicate(&self) -> (r: Settings)
        ensures
            r@ == self@,
            r.flags.deep_view() == self.flags.deep_view(),
            r.str_value.deep_view() == self.str_value.deep_view(),
            r.list.deep_view() == self.list.deep_view(),
    {
        let mut flags: Vec<(String, bool)> = Vec::new();
        let mut i: usize = 0;
        while i < self.flags.len()
            invariant
                i <= self.flags.len(),
                flags.deep_view() == self.flags.deep_view().take(i as int),
            decreases self.flags.len() - i,
        {
            let ghost before = flags.deep_view();
            let entry = (self.flags[i].0.clone(), self.flags[i].1);
            flags.push(entry);
            i += 1;
            assert(flags.deep_view() =~= before.push(entry.deep_view()));
            assert(self.flags.deep_view().take(i as int) =~= self.flags.deep_view().take(
                i - 1,
            ).push(self.flags@[i - 1].deep_view()));
        }
        assert(self.flags.deep_view().take(self.flags.len() as int) == self.flags.deep_view());
        let mut texts: Vec<(String, String)> = Vec::new();
        let mut i: usize = 0;
        while i < self.str_value.len()
            invariant
                i <= self.str_value.len(),
                texts.deep_view() == self.str_value.deep_view().take(i as int),
            decreases self.str_value.len() - i,
        {
            let ghost before = texts.deep_view();
            let entry = (self.str_value[i].0.clone(), self.str_value[i].1.clone());
            texts.push(entry);
            i += 1;
            assert(texts.deep_view() =~= before.push(entry.deep_view()));
            assert(self.str_value.deep_view().take(i as int) =~= self.str_value.deep_view().take(
                i - 1,
            ).push(self.str_value@[i - 1].deep_view()));
        }
        assert(self.str_value.deep_view().take(self.str_value.len() as int)
            == self.str_value.deep_view());
        let mut lists: Vec<(String, Vec<String>)> = Vec::new();
        let mut i: usize = 0;
        while i < self.list.len()
            invariant
                i <= self.list.len(),
                lists.deep_view() == self.list.deep_view().take(i as int),
            decreases self.list.len() - i,
        {
            let ghost before = lists.deep_view();
            let entry = (self.list[i].0.clone(), copy_of(&self.list[i].1));
            lists.push(entry);
            i += 1;
            assert(lists.deep_view() =~= before.push(entry.deep_view()));
            assert(self.list.deep_view().take(i as int) =~= self.list.deep_view().take(
                i - 1,
            ).push(self.list@[i - 1].deep_view()));
        }
        assert(self.list.deep_view().take(self.list.len() as int) == self.list.deep_view());
        Settings { flags, str_value: texts, list: lists }
    }

    /// Settings in which no flag is on and nothing was assigned.
    pub fn new() -> (r: Settings)
        ensures
            r@ == SettingsView::empty(),
    {
        let r = Settings { flags: Vec::new(), str_value: Vec::new(), list: Vec::new() };
        assert(r.flags.deep_view() =~= Seq::<(Seq<char>, bool)>::empty());
        assert(r.str_value.deep_view() =~= Seq::<(Seq<char>, Seq<char>)>::empty());
        assert(r.list.deep_view() =~= Seq::<(Seq<char>, Seq<Seq<char>>)>::empty());
        assert(r@.flags =~= Set::<Seq<char>>::empty());
        assert(r@.str_value =~= Map::<Seq<char>, Seq<char>>::empty());
        assert(r@.list =~= Map::<Seq<char>, Set<Seq<char>>>::empty());
        r
    }

    /// Whether the flag `name` is on.
    pub fn flag(&self, name: &str) -> (r: bool)
        ensures
            r == self@.flags.contains(name@),
    {
        let mut i = self.flags.len();
        assert(self.flags.deep_view().take(i as int) == self.flags.deep_view());
        while i > 0
            invariant
                i <= self.flags.len(),
                latest(self.flags.deep_view().take(i as int), name@) == latest(
                    self.flags.deep_view(),
                    name@,
                ),
            decreases i,
        {
            i -= 1;
            assert(self.flags.deep_view().take(i + 1).drop_last() == self.flags.deep_view().take(
                i as int,
            ));
            if same_text(self.flags[i].0.as_str(), name) {
                return self.flags[i].1;
            }
        }
        false
    }

    /// The text that was assigned to `name`, if any.
    pub fn text(&self, name: &str) -> (r: Option<&String>)
        ensures
            r.deep_view() == (if self@.str_value.contains_key(name@) {
                Some(self@.str_value[name@])
            } else {
                None
            }),
    {
        let mut i = self.str_value.len();
        assert(self.str_value.deep_view().take(i as int) == self.str_value.deep_view());
        while i > 0
            invariant
                i <= self.str_value.len(),
                latest(self.str_value.deep_view().take(i as int), name@) == latest(
                    self.str_value.deep_view(),
                    name@,
                ),
            decreases i,
        {
            i -= 1;
            assert(self.str_value.deep_view().take(i + 1).drop_last()
                == self.str_value.deep_view().take(i as int));
            if same_text(self.str_value[i].0.as_str(), name) {
                return Some(&self.str_value[i].1);
            }
        }
        None
    }

    /// The entries of the list `name`, if it was ever mentioned. An entry may
    /// occur more than once.
    pub fn list(&self, name: &str) -> (r: Option<&Vec<String>>)
        ensures
            self@.list.contains_key(name@) == r is Some,
            r matches Some(v) ==> elems(v.deep_view()) == self@.list[name@] && Some(
                v.deep_view(),
            ) == latest(self.list.deep_view(), name@),
            (match r {
                Some(v) => elems(v.deep_view()),
                None => Set::empty(),
            }) == self@.list_of(name@),
    {
        let mut i = self.list.len();
        assert(self.list.deep_view().take(i as int) == self.list.deep_view());
        while i > 0
            invariant
                i <= self.list.len(),
                latest(self.list.deep_view().take(i as int), name@) == latest(
                    self.list.deep_view(),
                    name@,
                ),
            decreases i,
        {
            i -= 1;
            assert(self.list.deep_view().take(i + 1).drop_last() == self.list.deep_view().take(
                i as int,
            ));
            if same_text(self.list[i].0.as_str(), name) {
                return Some(&self.list[i].1);
            }
        }
        None
    }

    /// Whether `entry` is in the list `name`.
    pub fn list_holds(&self, name: &str, entry: &str) -> (r: bool)
        ensures
            r == self@.list_of(name@).contains(entry@),
    {
        match self.list(name) {
            Some(v) => holds(v, entry),
            None => false,
        }
    }

    /// Takes one `Defaults` line into account.
    pub fn apply(&mut self, name: &String, value: &DefaultValue)
        ensures
            final(self)@ == old(self)@.step(name@, value.deep_view()),
    {
        let ghost flags = self.flags.deep_view();
        let ghost texts = self.str_value.deep_view();
        let ghost lists = self.list.deep_view();
        match value {
            DefaultValue::Flag(on) => {
                self.flags.push((name.clone(), *on));
                assert(self.flags.deep_view() =~= flags.push((name@, *on)));
                assert(self.flags.deep_view().drop_last() == flags);
                assert(self@.flags =~= old(self)@.step(name@, value.deep_view()).flags);
            },
            DefaultValue::Text(t) => {
                self.str_value.push((name.clone(), t.clone()));
                assert(self.str_value.deep_view() =~= texts.push((name@, t@)));
                assert(self.str_value.deep_view().drop_last() == texts);
                assert(self@.str_value =~= old(self)@.step(name@, value.deep_view()).str_value);
            },
            DefaultValue::List(mode, items) => {
                let entries = match mode {
                    Mode::Assign => copy_of(items),
                    Mode::Add => match self.list(name.as_str()) {
                        Some(had) => joined(had, items),
                        None => {
                            let none: Vec<String> = Vec::new();
                            assert(elems(none.deep_view()) =~= Set::<Seq<char>>::empty());
                            joined(&none, items)
                        },
                    },
                    Mode::Del => match self.list(name.as_str()) {
                        Some(had) => without(had, items),
                        None => {
                            let none: Vec<String> = Vec::new();
                            assert(none.deep_view() =~= Seq::<Seq<char>>::empty());
                            assert(elems(none.deep_view()) =~= Set::<Seq<char>>::empty());
                            assert(elems(none.deep_view()) =~= Set::<Seq<char>>::empty() - elems(
                                items.deep_view(),
                            ));
                            none
                        },
                    },
                };
                let ghost ev = entries.deep_view();
                self.list.push((name.clone(), entries));
                assert(self.list.deep_view() =~= lists.push((name@, ev)));
                assert(self.list.deep_view().drop_last() == lists);
                assert(self@.list =~= old(self)@.step(name@, value.deep_view()).list);
            },
        }
        assert(self@.flags =~= old(self)@.step(name@, value.deep_view()).flags);
        assert(self@.str_value =~= old(self)@.step(name@, value.deep_view()).str_value);
        assert(self@.list =~= old(self)@.step(name@, value.deep_view()).list);
    }
}

} // verus!

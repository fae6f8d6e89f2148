//! Building blocks of a recursive-descent parser with three outcomes.
//!
//! A parser looks at the text from a position on. It *accepts* (a value, and the
//! position after what it consumed), *rejects* (nothing consumed: the caller may
//! try something else), or fails *fatally* (the text is malformed at the given
//! position). Each parser is a spec function on `Seq<char>`; its executable
//! twin is proved to compute exactly that.

use vstd::prelude::*;

verus! {

/// What is wrong with a piece of policy text.
#[derive(Debug, Clone, Copy, PartialEq, Eq, Structural)]
pub enum Fault {
    /// This character was required here.
    MissingSyntax(char),
    /// A name, number, path or list entry was required here.
    MissingItem,
    /// A backslash among blanks that does not continue the line.
    StrayEscape,
    /// A backslash before a character that cannot be escaped.
    IllegalEscape,
    /// A token is longer than its kind allows.
    TokenTooLong,
    /// A number does not fit its type.
    NumberTooLarge,
    /// A list holds more entries than allowed.
    TooManyItems,
    /// More tags before a command than allowed.
    TooManyTags,
    /// `+netgroup` is recognised and refused.
    Netgroup,
    /// The item is neither an absolute path nor a name in upper case.
    BadCommand,
    /// A directive keyword heads a list of users that has more entries.
    KeywordInUserList,
    /// Behind `@` or `#` stands neither `include` nor `includedir`.
    UnknownDirective,
    /// An unquoted path is followed by more text.
    UnquotedPath,
    /// A quoted text is not closed on its line.
    UnterminatedQuote,
    /// An entry of a list setting carries a value.
    ValueInList,
    /// A list setting is given no entries.
    EmptyList,
    /// The setting cannot be switched on or off.
    NotBoolean,
    /// The setting does not hold a list.
    NotList,
    /// Text is left over behind a complete line.
    TrailingText,
}

/// Why a parser did not accept.
#[derive(Debug, Clone, Copy, PartialEq, Eq, Structural)]
pub enum Status {
    /// Nothing was consumed.
    Reject,
    /// The text is malformed at this position.
    Fatal(Fault, usize),
}

/// The result of an executable parser: the value and the position behind it.
pub type Parsed<T> = Result<(T, usize), Status>;

/// The three outcomes of a parser, as contracts speak of them.
pub enum Outcome<V> {
    Accept(V, int),
    Reject,
    Fatal(Fault, int),
}

/// The outcome that an executable result stands for.
pub open spec fn outcome<T: DeepView>(r: Parsed<T>) -> Outcome<T::V> {
    match r {
        Ok((t, p)) => Outcome::Accept(t.deep_view(), p as int),
        Err(Status::Reject) => Outcome::Reject,
        Err(Status::Fatal(f, p)) => Outcome::Fatal(f, p as int),
    }
}

impl<V> Outcome<V> {
    /// Positions in the outcome lie between `pos` and the end of `s`.
    pub open spec fn within(self, s: Seq<char>, pos: int) -> bool {
        match self {
            Outcome::Accept(_, p) => pos <= p <= s.len(),
            Outcome::Reject => true,
            Outcome::Fatal(_, p) => pos <= p <= s.len(),
        }
    }

    /// The same outcome, where a rejection at `pos` counts as a missing item.
    pub open spec fn required(self, pos: int) -> Outcome<V> {
        match self {
            Outcome::Reject => Outcome::Fatal(Fault::MissingItem, pos),
            o => o,
        }
    }

    /// The same outcome, where a rejection yields `None` and consumes nothing.
    pub open spec fn optional(self, pos: int) -> Outcome<Option<V>> {
        match self {
            Outcome::Accept(v, p) => Outcome::Accept(Some(v), p),
            Outcome::Reject => Outcome::Accept(None, pos),
            Outcome::Fatal(f, p) => Outcome::Fatal(f, p),
        }
    }
}

/// Turns a rejection at `pos` into a fatal error: the item had to be there.
pub fn expect<T: DeepView>(r: Parsed<T>, pos: usize) -> (e: Parsed<T>)
    ensures
        outcome(e) == outcome(r).required(pos as int),
        e is Ok ==> e == r,
{
    match r {
        Err(Status::Reject) => Err(Status::Fatal(Fault::MissingItem, pos)),
        other => other,
    }
}

/// Turns a rejection at `pos` into the absence of a value.
pub fn maybe<T: DeepView>(r: Parsed<T>, pos: usize) -> (e: Parsed<Option<T>>)
    ensures
        outcome(e) == outcome(r).optional(pos as int),
        !(e matches Err(Status::Reject)),
{
    match r {
        Ok((t, p)) => Ok((Some(t), p)),
        Err(Status::Reject) => Ok((None, pos)),
        Err(Status::Fatal(f, p)) => Err(Status::Fatal(f, p)),
    }
}

/// The first position from `pos` on that holds no blank.
pub open spec fn skip_blanks(s: Seq<char>, pos: int) -> int
    decreases s.len() - pos,
{
    if 0 <= pos < s.len() && crate::text::is_blank(s[pos]) {
        skip_blanks(s, pos + 1)
    } else {
        pos
    }
}

/// Skipping blanks stays inside the text and never goes backwards.
pub proof fn lemma_skip_blanks(s: Seq<char>, pos: int)
    requires
        0 <= pos <= s.len(),
    ensures
        pos <= skip_blanks(s, pos) <= s.len(),
    decreases s.len() - pos,
{
    if pos < s.len() && crate::text::is_blank(s[pos]) {
        lemma_skip_blanks(s, pos + 1);
    }
}

/// Blank space between tokens: blanks, and backslash-newline pairs that continue
/// the line. A backslash followed by anything else is a stray escape.
pub open spec fn skip_space(s: Seq<char>, pos: int) -> Outcome<()>
    recommends
        0 <= pos <= s.len(),
    decreases s.len() - pos,
{
    let p = skip_blanks(s, pos);
    if 0 <= pos <= p < s.len() && s[p] == '\\' {
        if p + 1 < s.len() && s[p + 1] == '\n' {
            skip_space(s, p + 2)
        } else {
            Outcome::Fatal(Fault::StrayEscape, p + 1)
        }
    } else {
        Outcome::Accept((), p)
    }
}

/// Skipping blank space stays inside the text and is never rejected.
pub proof fn lemma_skip_space(s: Seq<char>, pos: int)
    requires
        0 <= pos <= s.len(),
    ensures
        skip_space(s, pos).within(s, pos),
        !(skip_space(s, pos) is Reject),
    decreases s.len() - pos,
{
    let p = skip_blanks(s, pos);
    lemma_skip_blanks(s, pos);
    if p < s.len() && s[p] == '\\' {
        if p + 1 < s.len() && s[p + 1] == '\n' {
            lemma_skip_space(s, p + 2);
        }
    }
}

/// Skips the blanks at `pos`.
pub fn blanks(s: &Vec<char>, pos: usize) -> (p: usize)
    requires
        pos <= s.len(),
    ensures
        p == skip_blanks(s@, pos as int),
        pos <= p <= s.len(),
{
    let mut p = pos;
    while p < s.len() && crate::text::blank(s[p])
        invariant
            pos <= p <= s.len(),
            skip_blanks(s@, p as int) == skip_blanks(s@, pos as int),
        decreases s.len() - p,
    {
        p += 1;
    }
    p
}

/// Skips the blank space at `pos`.
pub fn space(s: &Vec<char>, pos: usize) -> (r: Parsed<()>)
    requires
        pos <= s.len(),
    ensures
        outcome(r) == skip_space(s@, pos as int),
        outcome(r).within(s@, pos as int),
{
    let mut at = pos;
    loop
        invariant
            pos <= at <= s.len(),
            skip_space(s@, at as int) == skip_space(s@, pos as int),
        decreases s.len() - at,
    {
        let p = blanks(s, at);
        if p < s.len() && s[p] == '\\' {
            if p + 1 < s.len() && s[p + 1] == '\n' {
                at = p + 2;
            } else {
                return Err(Status::Fatal(Fault::StrayEscape, p + 1));
            }
        } else {
            return Ok(((), p));
        }
    }
}

/// The character `c` and the space behind it.
pub open spec fn syntax(c: char, s: Seq<char>, pos: int) -> Outcome<()> {
    if 0 <= pos < s.len() && s[pos] == c {
        skip_space(s, pos + 1)
    } else {
        Outcome::Reject
    }
}

/// Like [`syntax`], but the character has to be there.
pub open spec fn required_syntax(c: char, s: Seq<char>, pos: int) -> Outcome<()> {
    match syntax(c, s, pos) {
        Outcome::Reject => Outcome::Fatal(Fault::MissingSyntax(c), pos),
        o => o,
    }
}

/// Like [`syntax`], but tells whether the character was there.
pub open spec fn optional_syntax(c: char, s: Seq<char>, pos: int) -> Outcome<bool> {
    match syntax(c, s, pos) {
        Outcome::Accept(_, p) => Outcome::Accept(true, p),
        Outcome::Reject => Outcome::Accept(false, pos),
        Outcome::Fatal(f, p) => Outcome::Fatal(f, p),
    }
}

/// A character of the syntax is read inside the text; where it is there, the
/// position moves on.
pub proof fn lemma_syntax(c: char, s: Seq<char>, pos: int)
    requires
        0 <= pos <= s.len(),
    ensures
        syntax(c, s, pos).within(s, pos),
        syntax(c, s, pos) matches Outcome::Accept(_, p) ==> pos < p,
        required_syntax(c, s, pos).within(s, pos),
        optional_syntax(c, s, pos).within(s, pos),
        optional_syntax(c, s, pos) matches Outcome::Accept(b, p) ==> (b ==> pos < p),
{
    if pos < s.len() {
        lemma_skip_space(s, pos + 1);
    }
}

/// Whether `c` stands at `pos`.
pub fn at(c: char, s: &Vec<char>, pos: usize) -> (r: bool)
    ensures
        r == (pos < s.len() && s@[pos as int] == c),
{
    pos < s.len() && s[pos] == c
}

/// Reads `c` and the space behind it, if `c` stands at `pos`.
pub fn try_syntax(c: char, s: &Vec<char>, pos: usize) -> (r: Parsed<()>)
    requires
        pos <= s.len(),
    ensures
        outcome(r) == syntax(c, s@, pos as int),
        outcome(r).within(s@, pos as int),
{
    if at(c, s, pos) {
        space(s, pos + 1)
    } else {
        Err(Status::Reject)
    }
}

/// Reads `c`, which has to stand at `pos`, and the space behind it.
pub fn expect_syntax(c: char, s: &Vec<char>, pos: usize) -> (r: Parsed<()>)
    requires
        pos <= s.len(),
    ensures
        outcome(r) == required_syntax(c, s@, pos as int),
        outcome(r).within(s@, pos as int),
{
    match try_syntax(c, s, pos) {
        Err(Status::Reject) => Err(Status::Fatal(Fault::MissingSyntax(c), pos)),
        other => other,
    }
}

/// Reads `c` and the space behind it, and tells whether `c` stood at `pos`.
pub fn is_syntax(c: char, s: &Vec<char>, pos: usize) -> (r: Parsed<bool>)
    requires
        pos <= s.len(),
    ensures
        outcome(r) == optional_syntax(c, s@, pos as int),
        outcome(r).within(s@, pos as int),
{
    match try_syntax(c, s, pos) {
        Ok((_, p)) => Ok((true, p)),
        Err(Status::Reject) => Ok((false, pos)),
        Err(e) => Err(e),
    }
}

/// Something that the policy language has a grammar for.
pub trait Parse: DeepView + Sized {
    /// What the text from `pos` on is, read as a `Self`.
    spec fn grammar(s: Seq<char>, pos: int) -> Outcome<Self::V>;

    /// A parser stays inside the text and never goes backwards.
    proof fn lemma_grammar(s: Seq<char>, pos: int)
        requires
            0 <= pos <= s.len(),
        ensures
            Self::grammar(s, pos).within(s, pos),
    ;

    fn parse(s: &Vec<char>, pos: usize) -> (r: Parsed<Self>)
        requires
            pos <= s.len(),
        ensures
            outcome(r) == Self::grammar(s@, pos as int),
            outcome(r).within(s@, pos as int),
    ;
}

/// The entries of a list behind its first: a separator and an entry, as often
/// as a separator follows. `sofar` holds the entries read up to `pos`; a list
/// may not grow beyond `limit` entries.
pub open spec fn list_tail<T: Parse>(
    sep: char,
    limit: nat,
    s: Seq<char>,
    pos: int,
    sofar: Seq<T::V>,
) -> Outcome<Seq<T::V>>
    recommends
        0 <= pos <= s.len(),
    decreases s.len() - pos,
{
    match syntax(sep, s, pos) {
        Outcome::Accept(_, p) => {
            if sofar.len() >= limit {
                Outcome::Fatal(Fault::TooManyItems, p)
            } else {
                match T::grammar(s, p).required(p) {
                    Outcome::Accept(v, q) => {
                        proof {
                            lemma_syntax(sep, s, pos);
                            T::lemma_grammar(s, p);
                        }
                        list_tail::<T>(sep, limit, s, q, sofar.push(v))
                    },
                    Outcome::Reject => Outcome::Reject,
                    Outcome::Fatal(f, q) => Outcome::Fatal(f, q),
                }
            }
        },
        Outcome::Reject => Outcome::Accept(sofar, pos),
        Outcome::Fatal(f, p) => Outcome::Fatal(f, p),
    }
}

/// One or more `T`, separated by `sep`.
pub open spec fn list<T: Parse>(sep: char, limit: nat, s: Seq<char>, pos: int) -> Outcome<
    Seq<T::V>,
> {
    match T::grammar(s, pos) {
        Outcome::Accept(v, p) => list_tail::<T>(sep, limit, s, p, seq![v]),
        Outcome::Reject => Outcome::Reject,
        Outcome::Fatal(f, p) => Outcome::Fatal(f, p),
    }
}

/// The rest of a list is read inside the text, is never rejected and loses no
/// entry.
pub proof fn lemma_list_tail<T: Parse>(
    sep: char,
    limit: nat,
    s: Seq<char>,
    pos: int,
    sofar: Seq<T::V>,
)
    requires
        0 <= pos <= s.len(),
    ensures
        list_tail::<T>(sep, limit, s, pos, sofar).within(s, pos),
        !(list_tail::<T>(sep, limit, s, pos, sofar) is Reject),
        list_tail::<T>(sep, limit, s, pos, sofar) matches Outcome::Accept(v, _) ==> v.len()
            >= sofar.len(),
    decreases s.len() - pos,
{
    lemma_syntax(sep, s, pos);
    match syntax(sep, s, pos) {
        Outcome::Accept(_, p) => {
            if sofar.len() < limit {
                T::lemma_grammar(s, p);
                match T::grammar(s, p).required(p) {
                    Outcome::Accept(v, q) => {
                        lemma_list_tail::<T>(sep, limit, s, q, sofar.push(v));
                    },
                    _ => {},
                }
            }
        },
        _ => {},
    }
}

/// A list is read inside the text and holds at least one entry.
pub proof fn lemma_list<T: Parse>(sep: char, limit: nat, s: Seq<char>, pos: int)
    requires
        0 <= pos <= s.len(),
    ensures
        list::<T>(sep, limit, s, pos).within(s, pos),
        list::<T>(sep, limit, s, pos) matches Outcome::Accept(v, _) ==> v.len() >= 1,
{
    T::lemma_grammar(s, pos);
    match T::grammar(s, pos) {
        Outcome::Accept(v, p) => {
            lemma_list_tail::<T>(sep, limit, s, p, seq![v]);
        },
        _ => {},
    }
}

/// Reads one or more `T`, separated by `sep`; a list may not grow beyond
/// `limit` entries.
pub fn parse_list<T: Parse>(sep: char, limit: usize, s: &Vec<char>, pos: usize) -> (r: Parsed<
    Vec<T>,
>)
    requires
        pos <= s.len(),
    ensures
        outcome(r) == list::<T>(sep, limit as nat, s@, pos as int),
        outcome(r).within(s@, pos as int),
        r matches Ok((v, _)) ==> v.len() >= 1,
{
    let (first, mut at) = T::parse(s, pos)?;
    let mut items: Vec<T> = Vec::new();
    items.push(first);
    assert(items.deep_view() =~= seq![first.deep_view()]);
    loop
        invariant
            pos <= at <= s.len(),
            items.len() >= 1,
            list_tail::<T>(sep, limit as nat, s@, at as int, items.deep_view()) == list::<T>(
                sep,
                limit as nat,
                s@,
                pos as int,
            ),
        decreases s.len() - at,
    {
        proof {
            lemma_syntax(sep, s@, at as int);
        }
        match try_syntax(sep, s, at) {
            Ok((_, p)) => {
                if items.len() >= limit {
                    return Err(Status::Fatal(Fault::TooManyItems, p));
                }
                let (item, q) = expect(T::parse(s, p), p)?;
                let ghost before = items.deep_view();
                items.push(item);
                assert(items.deep_view() =~= before.push(item.deep_view()));
                at = q;
            },
            Err(Status::Reject) => {
                return Ok((items, at));
            },
            Err(e) => {
                return Err(e);
            },
        }
    }
}

} // verus!

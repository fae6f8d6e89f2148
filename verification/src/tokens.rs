//! The tokens of the policy language.
//!
//! A token is a run of characters of one class, possibly with escapes, and the
//! blank space behind it.

use crate::basic_parser::{
    lemma_skip_space, outcome, skip_space, space, Fault, Outcome, Parsed, Status,
};
use crate::text::{
    alnum, blank, control, digit, is_alnum, is_blank, is_control, is_digit, is_lower, is_upper,
    lower, upper,
};
use vstd::prelude::*;

verus! {

/// The kinds of token.
#[derive(Debug, Clone, Copy, PartialEq, Eq, Structural)]
pub enum TokenClass {
    /// The name of a user or a group: `[A-Za-z_][A-Za-z0-9_-]*`.
    Username,
    /// A run of decimal digits.
    Digits,
    /// The name of a host: letters, digits, `.`, `-` and `_`.
    Hostname,
    /// A keyword or the name of an alias: `[A-Z][A-Z0-9_]*`.
    Upper,
    /// A command with its arguments; it starts with `/` or, where it is a
    /// keyword or an alias, with a capital letter.
    Command,
    /// The name of a setting or of an environment variable.
    EnvVar,
    /// What stands between double quotes; a backslash has no special meaning.
    QuotedText,
    /// An unquoted path behind an include directive.
    IncludePath,
    /// An unquoted value of a text setting.
    StringParameter,
}

/// The longest token of each class, in characters.
pub open spec fn max_len(class: TokenClass) -> nat {
    match class {
        TokenClass::Username | TokenClass::Hostname | TokenClass::Upper | TokenClass::EnvVar => 255,
        TokenClass::Digits => 10,
        _ => 1024,
    }
}

/// Whether a backslash escapes characters inside a token of this class.
pub open spec fn allows_escape(class: TokenClass) -> bool {
    class is Command || class is IncludePath || class is StringParameter
}

/// The characters that need a backslash before them in a token of this class.
pub open spec fn escaped(class: TokenClass, c: char) -> bool {
    match class {
        TokenClass::Command => c == '\\' || c == ',' || c == ':' || c == '=' || c == '#',
        TokenClass::IncludePath => c == '\\' || c == '"' || c == ' ',
        TokenClass::StringParameter => c == '\\' || c == '"' || c == ' ' || c == '#' || c == ',',
        _ => false,
    }
}

/// The characters that a token of this class may hold unescaped.
pub open spec fn accepts(class: TokenClass, c: char) -> bool {
    match class {
        TokenClass::Username => is_alnum(c) || c == '_' || c == '-',
        TokenClass::Digits => is_digit(c),
        TokenClass::Hostname => is_alnum(c) || c == '.' || c == '-' || c == '_',
        TokenClass::Upper => is_upper(c) || is_digit(c) || c == '_',
        TokenClass::Command => !is_control(c) && !escaped(class, c),
        TokenClass::EnvVar => is_alnum(c) || c == '_',
        TokenClass::QuotedText => !is_control(c) && c != '"',
        TokenClass::IncludePath => !is_control(c) && !escaped(class, c),
        TokenClass::StringParameter => !is_control(c) && !escaped(class, c),
    }
}

/// The characters that a token of this class may start with.
pub open spec fn accepts_first(class: TokenClass, c: char) -> bool {
    match class {
        TokenClass::Username => is_upper(c) || is_lower(c) || c == '_',
        TokenClass::Upper => is_upper(c),
        TokenClass::Command => c == '/' || is_upper(c),
        _ => accepts(class, c),
    }
}

/// The next character of a token: one that the class accepts, or an escaped one
/// behind a backslash. A backslash before a newline ends the token; before
/// anything else that cannot be escaped it is an error.
pub open spec fn token_char(class: TokenClass, first: bool, s: Seq<char>, pos: int) -> Outcome<
    char,
> {
    if !(0 <= pos < s.len()) {
        Outcome::Reject
    } else if allows_escape(class) && s[pos] == '\\' {
        if pos + 1 < s.len() && escaped(class, s[pos + 1]) {
            Outcome::Accept(s[pos + 1], pos + 2)
        } else if pos + 1 < s.len() && s[pos + 1] == '\n' {
            Outcome::Reject
        } else {
            Outcome::Fatal(Fault::IllegalEscape, pos + 1)
        }
    } else if (if first {
        accepts_first(class, s[pos])
    } else {
        accepts(class, s[pos])
    }) {
        Outcome::Accept(s[pos], pos + 1)
    } else {
        Outcome::Reject
    }
}

/// The characters of a token behind those in `sofar`, which end before `pos`.
pub open spec fn token_tail(class: TokenClass, s: Seq<char>, pos: int, sofar: Seq<char>) -> Outcome<
    Seq<char>,
>
    decreases s.len() - pos,
{
    match token_char(class, false, s, pos) {
        Outcome::Accept(c, p) => {
            if sofar.len() >= max_len(class) {
                Outcome::Fatal(Fault::TokenTooLong, pos)
            } else {
                token_tail(class, s, p, sofar.push(c))
            }
        },
        Outcome::Reject => Outcome::Accept(sofar, pos),
        Outcome::Fatal(f, p) => Outcome::Fatal(f, p),
    }
}

/// A token of the class at `pos`: its characters, escapes resolved, and the
/// position behind the blank space that follows it.
pub open spec fn token(class: TokenClass, s: Seq<char>, pos: int) -> Outcome<Seq<char>> {
    match token_char(class, true, s, pos) {
        Outcome::Accept(c, p) => match token_tail(class, s, p, seq![c]) {
            Outcome::Accept(t, q) => match skip_space(s, q) {
                Outcome::Accept(_, e) => Outcome::Accept(t, e),
                Outcome::Reject => Outcome::Reject,
                Outcome::Fatal(f, e) => Outcome::Fatal(f, e),
            },
            o => o,
        },
        Outcome::Reject => Outcome::Reject,
        Outcome::Fatal(f, p) => Outcome::Fatal(f, p),
    }
}

/// The rest of a token is read inside the text, is never rejected and keeps
/// the characters read so far.
pub proof fn lemma_token_tail(class: TokenClass, s: Seq<char>, pos: int, sofar: Seq<char>)
    requires
        0 <= pos <= s.len(),
    ensures
        token_tail(class, s, pos, sofar).within(s, pos),
        !(token_tail(class, s, pos, sofar) is Reject),
        token_tail(class, s, pos, sofar) matches Outcome::Accept(t, _) ==> sofar.len() <= t.len()
            && t.take(sofar.len() as int) == sofar,
    decreases s.len() - pos,
{
    match token_char(class, false, s, pos) {
        Outcome::Accept(c, p) => {
            if sofar.len() < max_len(class) {
                lemma_token_tail(class, s, p, sofar.push(c));
                match token_tail(class, s, p, sofar.push(c)) {
                    Outcome::Accept(t, _) => {
                        assert(t.take(sofar.len() as int) == t.take(sofar.len() as int + 1).take(
                            sofar.len() as int,
                        ));
                        assert(sofar.push(c).take(sofar.len() as int) == sofar);
                    },
                    _ => {},
                }
            }
        },
        Outcome::Reject => {
            assert(sofar.take(sofar.len() as int) == sofar);
        },
        _ => {},
    }
}

/// A token is not empty, lies inside the text and begins with a character
/// that its class may start with.
pub proof fn lemma_token(class: TokenClass, s: Seq<char>, pos: int)
    requires
        0 <= pos <= s.len(),
    ensures
        token(class, s, pos).within(s, pos),
        token(class, s, pos) matches Outcome::Accept(t, p) ==> pos < p && t.len() >= 1,
        token(class, s, pos) matches Outcome::Accept(t, p) ==> (!allows_escape(class)
            ==> accepts_first(class, t[0])),
{
    match token_char(class, true, s, pos) {
        Outcome::Accept(c, p) => {
            lemma_token_tail(class, s, p, seq![c]);
            match token_tail(class, s, p, seq![c]) {
                Outcome::Accept(t, q) => {
                    lemma_skip_space(s, q);
                    assert(t.take(1)[0] == seq![c][0]);
                },
                _ => {},
            }
        },
        _ => {},
    }
}

fn class_allows_escape(class: TokenClass) -> (r: bool)
    ensures
        r == allows_escape(class),
{
    match class {
        TokenClass::Command | TokenClass::IncludePath | TokenClass::StringParameter => true,
        _ => false,
    }
}

fn class_escaped(class: TokenClass, c: char) -> (r: bool)
    ensures
        r == escaped(class, c),
{
    match class {
        TokenClass::Command => c == '\\' || c == ',' || c == ':' || c == '=' || c == '#',
        TokenClass::IncludePath => c == '\\' || c == '"' || c == ' ',
        TokenClass::StringParameter => c == '\\' || c == '"' || c == ' ' || c == '#' || c == ',',
        _ => false,
    }
}

fn class_accepts(class: TokenClass, c: char) -> (r: bool)
    ensures
        r == accepts(class, c),
{
    match class {
        TokenClass::Username => alnum(c) || c == '_' || c == '-',
        TokenClass::Digits => digit(c),
        TokenClass::Hostname => alnum(c) || c == '.' || c == '-' || c == '_',
        TokenClass::Upper => upper(c) || digit(c) || c == '_',
        TokenClass::Command => !control(c) && !class_escaped(class, c),
        TokenClass::EnvVar => alnum(c) || c == '_',
        TokenClass::QuotedText => !control(c) && c != '"',
        TokenClass::IncludePath => !control(c) && !class_escaped(class, c),
        TokenClass::StringParameter => !control(c) && !class_escaped(class, c),
    }
}

fn class_accepts_first(class: TokenClass, c: char) -> (r: bool)
    ensures
        r == accepts_first(class, c),
{
    match class {
        TokenClass::Username => upper(c) || lower(c) || c == '_',
        TokenClass::Upper => upper(c),
        TokenClass::Command => c == '/' || upper(c),
        _ => class_accepts(class, c),
    }
}

fn class_max_len(class: TokenClass) -> (r: usize)
    ensures
        r == max_len(class),
{
    match class {
        TokenClass::Username | TokenClass::Hostname | TokenClass::Upper | TokenClass::EnvVar => 255,
        TokenClass::Digits => 10,
        _ => 1024,
    }
}

fn next_char(class: TokenClass, first: bool, s: &Vec<char>, pos: usize) -> (r: Parsed<char>)
    requires
        pos <= s.len(),
    ensures
        outcome(r) == token_char(class, first, s@, pos as int),
        r matches Ok((_, p)) ==> pos < p <= s.len(),
        r matches Err(Status::Fatal(_, p)) ==> pos < p <= s.len(),
{
    if pos >= s.len() {
        Err(Status::Reject)
    } else if class_allows_escape(class) && s[pos] == '\\' {
        if pos + 1 < s.len() && class_escaped(class, s[pos + 1]) {
            Ok((s[pos + 1], pos + 2))
        } else if pos + 1 < s.len() && s[pos + 1] == '\n' {
            Err(Status::Reject)
        } else {
            Err(Status::Fatal(Fault::IllegalEscape, pos + 1))
        }
    } else {
        let ok = if first {
            class_accepts_first(class, s[pos])
        } else {
            class_accepts(class, s[pos])
        };
        if ok {
            Ok((s[pos], pos + 1))
        } else {
            Err(Status::Reject)
        }
    }
}

/// Reads a token of the class at `pos`.
pub fn scan(class: TokenClass, s: &Vec<char>, pos: usize) -> (r: Parsed<Vec<char>>)
    requires
        pos <= s.len(),
    ensures
        outcome(r) == token(class, s@, pos as int),
        outcome(r).within(s@, pos as int),
        r matches Ok((t, _)) ==> t.len() >= 1,
{
    let (c, start) = next_char(class, true, s, pos)?;
    let mut at = start;
    let mut text: Vec<char> = Vec::new();
    text.push(c);
    assert(text@ =~= seq![c]);
    let limit = class_max_len(class);
    loop
        invariant
            pos < start <= at <= s.len(),
            limit == max_len(class),
            text.len() >= 1,
            token_char(class, true, s@, pos as int) == Outcome::Accept(c, start as int),
            token_tail(class, s@, at as int, text@) == token_tail(
                class,
                s@,
                start as int,
                seq![c],
            ),
        decreases s.len() - at,
    {
        match next_char(class, false, s, at) {
            Ok((d, p)) => {
                if text.len() >= limit {
                    return Err(Status::Fatal(Fault::TokenTooLong, at));
                }
                text.push(d);
                at = p;
            },
            Err(Status::Reject) => {
                proof {
                    lemma_token_tail(class, s@, at as int, text@);
                }
                let (_, e) = space(s, at)?;
                assert(text.deep_view() =~= text@);
                return Ok((text, e));
            },
            Err(e) => {
                return Err(e)
            },
        }
    }
}

/// Whether `t` can be the name of an alias: `[A-Z][A-Z0-9_]*`.
pub open spec fn is_alias_name(t: Seq<char>) -> bool {
    t.len() >= 1 && is_upper(t[0]) && forall|i: int|
        0 <= i < t.len() ==> #[trigger] accepts(TokenClass::Upper, t[i])
}

/// Whether `t` can be the name of an alias.
pub fn alias_name(t: &Vec<char>) -> (r: bool)
    ensures
        r == is_alias_name(t@),
{
    if t.len() == 0 || !upper(t[0]) {
        return false;
    }
    let mut i: usize = 0;
    while i < t.len()
        invariant
            i <= t.len(),
            forall|j: int| 0 <= j < i ==> #[trigger] accepts(TokenClass::Upper, t@[j]),
        decreases t.len() - i,
    {
        if !class_accepts(TokenClass::Upper, t[i]) {
            return false;
        }
        i += 1;
    }
    true
}

/// `t` without the blanks at its end.
pub open spec fn trim_end(t: Seq<char>) -> Seq<char>
    decreases t.len(),
{
    if t.len() > 0 && is_blank(t.last()) {
        trim_end(t.drop_last())
    } else {
        t
    }
}

/// The length of `t` without the blanks at its end.
pub fn trimmed_len(t: &Vec<char>) -> (n: usize)
    ensures
        n <= t.len(),
        t@.take(n as int) == trim_end(t@),
{
    let mut n = t.len();
    assert(t@.take(n as int) == t@);
    while n > 0 && blank(t[n - 1])
        invariant
            n <= t.len(),
            trim_end(t@.take(n as int)) == trim_end(t@),
        decreases n,
    {
        assert(t@.take(n as int).drop_last() == t@.take(n - 1));
        n -= 1;
    }
    n
}

} // verus!

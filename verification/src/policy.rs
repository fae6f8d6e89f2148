//! What holds after a request was judged: the terms of a judgement, as the
//! rest of the program asks for them.

use crate::evaluate::{Judgement, JudgementView};
use crate::settings::{elems, SettingsView};
use crate::sudoers::Sudoers;
use vstd::prelude::*;

verus! {

/// What the invoker has to do before the command runs.
#[derive(Debug, Clone, Copy, PartialEq, Eq, Structural)]
pub enum Authorization {
    /// The invoker has to authenticate.
    Required,
    /// The command may run at once.
    Passed,
    /// The command may not run.
    Forbidden,
}

/// The authorization that a judgement amounts to.
pub open spec fn authorization_of(j: JudgementView) -> Authorization {
    match j.flags {
        Some(flags) => if flags.passwd {
            Authorization::Required
        } else {
            Authorization::Passed
        },
        None => Authorization::Forbidden,
    }
}

/// The terms of a judgement.
pub trait Policy {
    /// The variables that are kept from the invoker's environment.
    spec fn kept(&self) -> Set<Seq<char>>;

    /// The variables that are kept if their value is harmless.
    spec fn checked(&self) -> Set<Seq<char>>;

    fn env_keep(&self) -> (r: &[String])
        ensures
            elems(r.deep_view()) == self.kept(),
    ;

    fn env_check(&self) -> (r: &[String])
        ensures
            elems(r.deep_view()) == self.checked(),
    ;

    /// What the invoker has to do. Unless a policy says otherwise, the command
    /// may not run.
    fn authorization(&self) -> (r: Authorization)
        default_ensures
            r == Authorization::Forbidden,
    {
        Authorization::Forbidden
    }
}

impl Policy for Judgement {
    open spec fn kept(&self) -> Set<Seq<char>> {
        self@.settings.list_of("env_keep"@)
    }

    open spec fn checked(&self) -> Set<Seq<char>> {
        self@.settings.list_of("env_check"@)
    }

    fn authorization(&self) -> (r: Authorization)
        ensures
            r == authorization_of(self@),
    {
        if let Some(tag) = &self.flags {
            if !tag.passwd {
                Authorization::Passed
            } else {
                Authorization::Required
            }
        } else {
            Authorization::Forbidden
        }
    }

    fn env_keep(&self) -> (r: &[String]) {
        match self.settings.list("env_keep") {
            Some(v) => v.as_slice(),
            None => {
                let none: &[String] = &[];
                assert(none.deep_view() =~= Seq::<Seq<char>>::empty());
                assert(elems(none.deep_view()) =~= Set::<Seq<char>>::empty());
                none
            },
        }
    }

    fn env_check(&self) -> (r: &[String]) {
        match self.settings.list("env_check") {
            Some(v) => v.as_slice(),
            None => {
                let none: &[String] = &[];
                assert(none.deep_view() =~= Seq::<Seq<char>>::empty());
                assert(elems(none.deep_view()) =~= Set::<Seq<char>>::empty());
                none
            },
        }
    }
}

/// What a policy says before any request is judged.
pub trait PreJudgementPolicy {
    /// The search path that replaces the invoker's, if the policy sets one.
    spec fn secured_path(&self) -> Option<Seq<char>>;

    fn secure_path(&self) -> (r: Option<&str>)
        ensures
            (match r {
                Some(p) => Some(p@),
                None => None,
            }) == self.secured_path(),
    ;
}

/// The search path that the settings hold: the text `secure_path`, unless it
/// is missing or empty.
pub open spec fn secure_path_of(settings: SettingsView) -> Option<Seq<char>> {
    if settings.str_value.contains_key("secure_path"@) && settings.str_value["secure_path"@].len()
        > 0 {
        Some(settings.str_value["secure_path"@])
    } else {
        None
    }
}

impl PreJudgementPolicy for Sudoers {
    open spec fn secured_path(&self) -> Option<Seq<char>> {
        secure_path_of(self@.settings)
    }

    fn secure_path(&self) -> (r: Option<&str>) {
        match self.settings.text("secure_path") {
            Some(path) => {
                if path.as_str().unicode_len() == 0 {
                    None
                } else {
                    Some(path.as_str())
                }
            },
            None => None,
        }
    }
}

} // verus!

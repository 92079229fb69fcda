//! The errors a completion request can end in.  Every error is terminal: the
//! engine performs no recovery or fallback.

use vstd::prelude::*;

verus! {

/// Why a completion request was aborted.
#[derive(Debug)]
#[non_exhaustive]
pub enum Error {
    /// A dash token asked for flag completions where no flag is eligible.
    UnexpectedFlag,
    /// An `=value` part was attached to, or preceded, a boolean flag; carries
    /// the offending token.
    BoolFlagEqualsValue(String),
    /// A valued flag's value token itself looks like a flag; carries the
    /// flag's name.
    FlagNoValue(String),
    /// No eligible flag has this name; carries the name.
    FlagNotFound(String),
    /// A flag that must be written with `=` was used without it; carries the
    /// flag's name.
    RequiresEqual(String),
    /// A positional token arrived with no schema slot left; carries the
    /// token.
    UnexpectedArg(String),
    /// Fewer than two input tokens.
    ArgsTooShort,
}

/// Mathematical model of an error.
#[verifier::ext_equal]
pub enum ErrModel {
    UnexpectedFlag,
    BoolFlagEqualsValue(Seq<char>),
    FlagNoValue(Seq<char>),
    FlagNotFound(Seq<char>),
    RequiresEqual(Seq<char>),
    UnexpectedArg(Seq<char>),
    ArgsTooShort,
}

impl View for Error {
    type V = ErrModel;

    open spec fn view(&self) -> ErrModel {
        match self {
            Error::UnexpectedFlag => ErrModel::UnexpectedFlag,
            Error::BoolFlagEqualsValue(s) => ErrModel::BoolFlagEqualsValue(s@),
            Error::FlagNoValue(s) => ErrModel::FlagNoValue(s@),
            Error::FlagNotFound(s) => ErrModel::FlagNotFound(s@),
            Error::RequiresEqual(s) => ErrModel::RequiresEqual(s@),
            Error::UnexpectedArg(s) => ErrModel::UnexpectedArg(s@),
            Error::ArgsTooShort => ErrModel::ArgsTooShort,
        }
    }
}

impl PartialEq for Error {
    fn eq(&self, other: &Self) -> (r: bool) {
        match (self, other) {
            (Error::UnexpectedFlag, Error::UnexpectedFlag) => true,
            (Error::BoolFlagEqualsValue(a), Error::BoolFlagEqualsValue(b)) => crate::strutil::str_eq(
                a.as_str(),
                b.as_str(),
            ),
            (Error::FlagNoValue(a), Error::FlagNoValue(b)) => crate::strutil::str_eq(
                a.as_str(),
                b.as_str(),
            ),
            (Error::FlagNotFound(a), Error::FlagNotFound(b)) => crate::strutil::str_eq(
                a.as_str(),
                b.as_str(),
            ),
            (Error::RequiresEqual(a), Error::RequiresEqual(b)) => crate::strutil::str_eq(
                a.as_str(),
                b.as_str(),
            ),
            (Error::UnexpectedArg(a), Error::UnexpectedArg(b)) => crate::strutil::str_eq(
                a.as_str(),
                b.as_str(),
            ),
            (Error::ArgsTooShort, Error::ArgsTooShort) => true,
            _ => false,
        }
    }
}

impl vstd::std_specs::cmp::PartialEqSpecImpl for Error {
    open spec fn obeys_eq_spec() -> bool {
        true
    }

    open spec fn eq_spec(&self, other: &Self) -> bool {
        self@ == other@
    }
}

impl Eq for Error {
}

/// Why schema generation from a configuration was aborted.
#[derive(Debug)]
#[non_exhaustive]
pub enum GenerateError {
    /// Configuration entries that matched nothing in the command definition;
    /// carries their paths.
    UnprocessedConfigObj(Vec<Vec<String>>),
}

} // verus!

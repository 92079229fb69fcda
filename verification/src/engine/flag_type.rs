//! The two kinds of flag: boolean, and value-bearing with an `=`-completion
//! policy and an optional baked-in list of completable values.

use vstd::prelude::*;

use crate::history::{push_no_model, push_valued_model, History};
use crate::id;
use crate::id::PossibleValues;

use super::flag::CompleteWithEqual;

verus! {

/// A boolean flag: its occurrences are counted.
#[derive(Debug)]
pub struct Bool {
    pub id: id::NoVal,
}

impl Bool {
    /// Record one occurrence.
    pub(crate) fn push(&self, history: &mut History)
        ensures
            final(history)@ == push_no_model(old(history)@, self.id.0),
    {
        history.push_no_val(self.id)
    }
}

/// A value-bearing flag.
#[derive(Debug)]
pub struct Valued {
    pub id: id::Valued,
    pub complete_with_equal: CompleteWithEqual,
    pub possible: PossibleValues,
}

impl Valued {
    /// Record one value.
    pub(crate) fn push(&self, history: &mut History, arg: String)
        ensures
            final(history)@ == push_valued_model(old(history)@, self.id.key(), arg@),
    {
        history.push_valued(self.id.duplicate(), arg)
    }
}

/// What a flag is: boolean or value-bearing.
#[derive(Debug)]
pub enum Type {
    Bool(Bool),
    Valued(Valued),
}

impl Type {
    pub fn new_bool(id: id::NoVal) -> (r: Self)
        ensures
            r == Type::Bool(Bool { id }),
    {
        Type::Bool(Bool { id })
    }

    pub fn new_valued(
        id: id::Valued,
        complete_with_equal: CompleteWithEqual,
        possible: PossibleValues,
    ) -> (r: Self)
        ensures
            r == Type::Valued(Valued { id, complete_with_equal, possible }),
    {
        Type::Valued(Valued { id, complete_with_equal, possible })
    }
}

} // verus!

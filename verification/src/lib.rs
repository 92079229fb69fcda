//! An embeddable engine for shell completion of command lines.
//!
//! A static schema of commands, flags and positional arguments, together with
//! the tokens a user has typed so far, is turned into a set of completion
//! candidates.  Open-ended value domains are handed back to the embedding
//! application through a two-phase `Ready` / `Unready` result.

use vstd::prelude::*;

pub use completion::{Completion, CompletionGroup, Ready, Shell, Unready};
pub use engine::{Arg, Command, CompleteWithEqual, Flag};
pub use error::Error;
pub use history::{History, HistoryUnit};

pub mod arg_context;
pub mod completion;
pub mod engine;
pub mod error;
pub mod generate;
pub mod history;
pub mod id;
pub mod parsed_flag;
pub mod strutil;

verus! {

/// An identity that pairs a numeric id with the identifier it was derived
/// from, for use by schema generators.
#[derive(Clone, Copy, PartialEq, Eq, Debug)]
pub struct SupplementID(pub u32, pub &'static str);

impl SupplementID {
    pub fn new(id: u32, ident: &'static str) -> (r: Self)
        ensures
            r == SupplementID(id, ident),
    {
        SupplementID(id, ident)
    }
}

} // verus!

//! Support for generating schema definitions: the configuration that steers
//! a generation run, and the naming helpers that turn command, flag and
//! argument identifiers into source identifiers.  Walking a third-party
//! CLI-definition framework's command object is the embedding application's
//! part; only the rules live here.

pub mod config;
pub mod utils;

pub use config::Config;

use vstd::prelude::*;

verus! {

/// One step of the path from the root command to the entry being generated.
#[derive(Debug)]
pub struct Trace {
    pub cmd_id: String,
}

/// What kind of schema entry a generated name stands for.
#[derive(Clone, Copy, PartialEq, Eq, Structural, Debug)]
pub enum NameType {
    Command,
    Flag,
    Arg,
    External,
}

impl NameType {
    /// The identifier prefix this kind of entry uses.
    pub open spec fn prefix_spec(self) -> Seq<char> {
        match self {
            NameType::Command => "CMD"@,
            NameType::Flag => "Flag"@,
            NameType::Arg => "Val"@,
            NameType::External => "ValExternal"@,
        }
    }

    /// The identifier prefix this kind of entry uses.
    pub fn prefix(self) -> (r: &'static str)
        ensures
            r@ == self.prefix_spec(),
    {
        match self {
            NameType::Command => "CMD",
            NameType::Flag => "Flag",
            NameType::Arg => "Val",
            NameType::External => "ValExternal",
        }
    }
}

} // verus!

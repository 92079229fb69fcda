//! A flag schema entry: names, description, the once-only bit, and the flag's
//! kind, together with name-based completion generation.

use vstd::prelude::*;

use crate::completion::{CompModel, Completion};
use crate::history::{
    find_multi_idx, find_no_idx, find_single_idx, lemma_find_multi_bridge, lemma_find_no_bridge,
    lemma_find_single_bridge, HUnit, History,
};
use crate::id;
use crate::strutil;

use super::flag_type::Type;

verus! {

/// Whether name completion of a valued flag appends `=`.
#[derive(Clone, Copy, PartialEq, Eq, Structural, Debug)]
pub enum CompleteWithEqual {
    /// Only the `=`-suffixed name is offered.
    Must,
    /// Both the bare and the `=`-suffixed name are offered.
    Optional,
    /// Only the bare name is offered.
    NoNeed,
}

/// A flag schema entry.
#[derive(Debug)]
pub struct Flag {
    pub ty: Type,
    pub short: Vec<char>,
    pub long: Vec<String>,
    pub description: String,
    pub once: bool,
}

/// A plain candidate: a value and a description, ungrouped.
pub open spec fn plain_comp(v: Seq<char>, d: Seq<char>) -> CompModel {
    CompModel { value: v, description: d, group: None, always_match: false }
}

impl Flag {
    /// The description shown beside this flag's completions: its own, or its
    /// first long name as a stand-in.
    pub open spec fn desc_spec(self) -> Seq<char> {
        if self.description@.len() > 0 {
            self.description@
        } else if self.long@.len() > 0 {
            self.long@[0]@
        } else {
            Seq::empty()
        }
    }

    /// Whether `name` is one of this flag's long names.
    pub open spec fn matches_long(self, name: Seq<char>) -> bool {
        exists|i: int| 0 <= i < self.long@.len() && self.long@[i]@ == name
    }

    /// Whether `c` is one of this flag's short names.
    pub open spec fn matches_short(self, c: char) -> bool {
        exists|i: int| 0 <= i < self.short@.len() && self.short@[i] == c
    }

    /// Whether this flag's id occurs in the history.
    pub open spec fn exists_in(self, h: Seq<HUnit>) -> bool {
        match self.ty {
            Type::Bool(b) => find_no_idx(h, b.id.0, 0) is Some,
            Type::Valued(v) => if v.id.key().0 {
                find_multi_idx(h, v.id.key().1, 0) is Some
            } else {
                find_single_idx(h, v.id.key().1, 0) is Some
            },
        }
    }

    /// Whether this flag still takes part in matching and completion: a
    /// `once` flag drops out as soon as its id is in the history.
    pub open spec fn eligible(self, h: Seq<HUnit>) -> bool {
        !self.once || !self.exists_in(h)
    }

    /// The name this flag is reported by in errors.
    pub open spec fn name_spec(self) -> Seq<char> {
        if self.long@.len() > 0 {
            self.long@[0]@
        } else if self.short@.len() > 0 {
            seq![self.short@[0]]
        } else {
            Seq::empty()
        }
    }

    /// The one name completion offers for this flag, if any: the first long
    /// name, else (where short names are wanted) the first short name.
    pub open spec fn completion_base(self, is_long: Option<bool>) -> Option<Seq<char>> {
        if is_long != Some(false) && self.long@.len() > 0 {
            Some(seq!['-', '-'] + self.long@[0]@)
        } else if is_long != Some(true) && self.short@.len() > 0 {
            Some(seq!['-', self.short@[0]])
        } else {
            None
        }
    }

    /// The name candidates for this flag: the base name with `=` appended,
    /// the bare base name, or both, as the flag's policy asks.
    pub open spec fn flag_completions(self, is_long: Option<bool>) -> Seq<CompModel> {
        match self.completion_base(is_long) {
            None => Seq::empty(),
            Some(v) => {
                let d = self.desc_spec();
                match self.ty {
                    Type::Bool(_) => seq![plain_comp(v, d)],
                    Type::Valued(va) => match va.complete_with_equal {
                        CompleteWithEqual::NoNeed => seq![plain_comp(v, d)],
                        CompleteWithEqual::Must => seq![plain_comp(v.push('='), d)],
                        CompleteWithEqual::Optional => seq![
                            plain_comp(v.push('='), d),
                            plain_comp(v, d),
                        ],
                    },
                }
            },
        }
    }

    pub fn get_description(&self) -> (r: &str)
        ensures
            r@ == self.desc_spec(),
    {
        if !self.description.as_str().is_empty() {
            return self.description.as_str();
        }
        if self.long.len() > 0 {
            return self.long[0].as_str();
        }
        proof {
            reveal_strlit("");
            assert((""@) =~= Seq::<char>::empty());
        }
        ""
    }

    /// Whether `name` is one of this flag's long names.
    pub(crate) fn has_long(&self, name: &str) -> (r: bool)
        ensures
            r == self.matches_long(name@),
    {
        let n = self.long.len();
        let mut i: usize = 0;
        while i < n
            invariant
                0 <= i <= n,
                n == self.long@.len(),
                forall|k: int| 0 <= k < i ==> self.long@[k]@ != name@,
            decreases n - i,
        {
            if strutil::str_eq(self.long[i].as_str(), name) {
                return true;
            }
            i = i + 1;
        }
        false
    }

    /// Whether `c` is one of this flag's short names.
    pub(crate) fn has_short(&self, c: char) -> (r: bool)
        ensures
            r == self.matches_short(c),
    {
        let n = self.short.len();
        let mut i: usize = 0;
        while i < n
            invariant
                0 <= i <= n,
                n == self.short@.len(),
                forall|k: int| 0 <= k < i ==> self.short@[k] != c,
            decreases n - i,
        {
            if self.short[i] == c {
                return true;
            }
            i = i + 1;
        }
        false
    }

    /// The name this flag is reported by in errors.
    pub(crate) fn name(&self) -> (r: String)
        ensures
            r@ == self.name_spec(),
    {
        if self.long.len() > 0 {
            return self.long[0].clone();
        }
        if self.short.len() > 0 {
            let mut s = String::new();
            strutil::push_char(&mut s, self.short[0]);
            proof {
                assert(s@ =~= self.name_spec());
            }
            return s;
        }
        String::new()
    }

    /// Whether this flag's id occurs in the history.
    pub(crate) fn exists_in_history(&self, history: &History) -> (r: bool)
        ensures
            r == self.exists_in(history@),
    {
        match &self.ty {
            Type::Bool(b) => {
                let f = history.find(&b.id);
                proof {
                    lemma_find_no_bridge(history.0@, b.id, 0);
                }
                f.is_some()
            },
            Type::Valued(v) => match &v.id {
                id::Valued::Single(s) => {
                    let f = history.find(s);
                    proof {
                        lemma_find_single_bridge(history.0@, *s, 0);
                    }
                    f.is_some()
                },
                id::Valued::Multi(m) => {
                    let f = history.find(m);
                    proof {
                        lemma_find_multi_bridge(history.0@, *m, 0);
                    }
                    f.is_some()
                },
            },
        }
    }

    /// The name candidates for this flag.  `None` asks for a long name with a
    /// short name as fallback; `Some(true)` for long names only; `Some(false)`
    /// for short names only.
    pub(crate) fn gen_completion(&self, is_long: Option<bool>) -> (r: Vec<Completion>)
        ensures
            crate::completion::comps_view(r@) == self.flag_completions(is_long),
    {
        let use_long = match is_long {
            Some(false) => false,
            _ => true,
        };
        let use_short = match is_long {
            Some(true) => false,
            _ => true,
        };
        let base: Option<String> = if use_long && self.long.len() > 0 {
            let mut s = "--".to_owned();
            s.append(self.long[0].as_str());
            proof {
                reveal_strlit("--");
                assert(s@ =~= seq!['-', '-'] + self.long@[0]@);
            }
            Some(s)
        } else if use_short && self.short.len() > 0 {
            let mut s = "-".to_owned();
            strutil::push_char(&mut s, self.short[0]);
            proof {
                reveal_strlit("-");
                assert(s@ =~= seq!['-', self.short@[0]]);
            }
            Some(s)
        } else {
            None
        };
        let mut out: Vec<Completion> = Vec::new();
        match base {
            None => {
                proof {
                    assert(crate::completion::comps_view(out@) =~= self.flag_completions(
                        is_long,
                    ));
                }
            },
            Some(v) => {
                let with_equal = match &self.ty {
                    Type::Bool(_) => false,
                    Type::Valued(va) => match va.complete_with_equal {
                        CompleteWithEqual::NoNeed => false,
                        _ => true,
                    },
                };
                let also_bare = match &self.ty {
                    Type::Bool(_) => false,
                    Type::Valued(va) => match va.complete_with_equal {
                        CompleteWithEqual::Optional => true,
                        _ => false,
                    },
                };
                let desc = self.get_description();
                if with_equal {
                    let mut v_eq = v.clone();
                    strutil::push_char(&mut v_eq, '=');
                    out.push(Completion::new(v_eq.as_str(), desc));
                    if also_bare {
                        out.push(Completion::new(v.as_str(), desc));
                    }
                } else {
                    out.push(Completion::new(v.as_str(), desc));
                }
                proof {
                    assert(crate::completion::comps_view(out@) =~= self.flag_completions(
                        is_long,
                    ));
                }
            },
        }
        out
    }
}

} // verus!

//! Typed identities for flags, positional arguments and subcommands.
//!
//! A value-bearing id is either `Uncertain` (the embedding application must
//! resolve its value domain) or `Certain` (a fixed list of possible values is
//! baked into the schema).  Two `Certain` ids compare equal by index alone;
//! their payload is excluded from equality so that history lookups stay
//! correct.

use vstd::prelude::*;

verus! {

/// A static list of (value, description) pairs.
pub type PossibleValues = Vec<(String, String)>;

/// Model of a possible-value list: the pairs as character sequences.
pub open spec fn pv_model(v: PossibleValues) -> Seq<(Seq<char>, Seq<char>)> {
    v@.map_values(|p: (String, String)| (p.0@, p.1@))
}

/// A possible-value payload that never takes part in equality.
#[derive(Debug)]
pub struct AlwaysEq(pub PossibleValues);

impl PartialEq for AlwaysEq {
    fn eq(&self, _other: &Self) -> (r: bool) {
        true
    }
}

impl vstd::std_specs::cmp::PartialEqSpecImpl for AlwaysEq {
    open spec fn obeys_eq_spec() -> bool {
        true
    }

    open spec fn eq_spec(&self, _other: &Self) -> bool {
        true
    }
}

impl Eq for AlwaysEq {
}

/// Id for things that carry no value; a history lookup yields a count.
#[derive(Clone, Copy, PartialEq, Eq, Structural, Debug)]
pub struct NoVal(pub u32);

impl NoVal {
    pub fn new(id: u32) -> (r: Self)
        ensures
            r == NoVal(id),
    {
        NoVal(id)
    }
}

/// Id for things with at most one value; a history lookup yields a string.
#[derive(Debug)]
pub enum SingleVal {
    Uncertain(u32),
    Certain(u32, AlwaysEq),
}

/// Id for things with any number of values; a history lookup yields them all.
#[derive(Debug)]
pub enum MultiVal {
    Uncertain(u32),
    Certain(u32, AlwaysEq),
}

/// A value-bearing id of either arity.
#[derive(Debug)]
pub enum Valued {
    Single(SingleVal),
    Multi(MultiVal),
}

/// The identity of a value-bearing id: whether it is `Certain`, and its
/// number.  Payloads are excluded, so equality by key is equality by index.
pub type IdKey = (bool, u32);

impl SingleVal {
    /// The part of the id that takes part in equality.
    pub open spec fn key(self) -> IdKey {
        match self {
            SingleVal::Uncertain(i) => (false, i),
            SingleVal::Certain(i, _) => (true, i),
        }
    }

    /// The possible values carried by a `Certain` id (empty for `Uncertain`).
    pub open spec fn possible(self) -> Seq<(Seq<char>, Seq<char>)> {
        match self {
            SingleVal::Uncertain(_) => Seq::empty(),
            SingleVal::Certain(_, p) => pv_model(p.0),
        }
    }

    pub fn new(id: u32) -> (r: Self)
        ensures
            r == SingleVal::Uncertain(id),
    {
        SingleVal::Uncertain(id)
    }

    pub fn new_certain(id: u32, values: PossibleValues) -> (r: Self)
        ensures
            r.key() == (true, id),
            r.possible() == pv_model(values),
    {
        SingleVal::Certain(id, AlwaysEq(values))
    }

    pub fn into(self) -> (r: Valued)
        ensures
            r == Valued::Single(self),
    {
        Valued::Single(self)
    }
}

impl MultiVal {
    /// The part of the id that takes part in equality.
    pub open spec fn key(self) -> IdKey {
        match self {
            MultiVal::Uncertain(i) => (false, i),
            MultiVal::Certain(i, _) => (true, i),
        }
    }

    /// The possible values carried by a `Certain` id (empty for `Uncertain`).
    pub open spec fn possible(self) -> Seq<(Seq<char>, Seq<char>)> {
        match self {
            MultiVal::Uncertain(_) => Seq::empty(),
            MultiVal::Certain(_, p) => pv_model(p.0),
        }
    }

    pub fn new(id: u32) -> (r: Self)
        ensures
            r == MultiVal::Uncertain(id),
    {
        MultiVal::Uncertain(id)
    }

    pub fn new_certain(id: u32, values: PossibleValues) -> (r: Self)
        ensures
            r.key() == (true, id),
            r.possible() == pv_model(values),
    {
        MultiVal::Certain(id, AlwaysEq(values))
    }

    pub fn into(self) -> (r: Valued)
        ensures
            r == Valued::Multi(self),
    {
        Valued::Multi(self)
    }
}

impl Valued {
    /// Whether this id is the multi-valued kind, plus the inner key.
    pub open spec fn key(self) -> (bool, IdKey) {
        match self {
            Valued::Single(s) => (false, s.key()),
            Valued::Multi(m) => (true, m.key()),
        }
    }

    /// The application id to hand back, for an `Uncertain` id.
    pub open spec fn proj(self) -> Option<u32> {
        match self {
            Valued::Single(SingleVal::Uncertain(i)) => Some(i),
            Valued::Multi(MultiVal::Uncertain(i)) => Some(i),
            _ => None,
        }
    }

    /// The possible values of a `Certain` id (empty for `Uncertain`).
    pub open spec fn possible(self) -> Seq<(Seq<char>, Seq<char>)> {
        match self {
            Valued::Single(s) => s.possible(),
            Valued::Multi(m) => m.possible(),
        }
    }

    /// Project out the application id, when the caller must be asked.
    pub(crate) fn id(&self) -> (r: Option<u32>)
        ensures
            r == self.proj(),
    {
        match self {
            Valued::Single(SingleVal::Uncertain(i)) => Some(*i),
            Valued::Multi(MultiVal::Uncertain(i)) => Some(*i),
            _ => None,
        }
    }

    /// The possible-value list of a `Certain` id.
    pub(crate) fn certain_values(&self) -> (r: Option<&PossibleValues>)
        ensures
            match r {
                Some(v) => self.proj() is None && pv_model(*v) == self.possible(),
                None => self.proj() is Some,
            },
    {
        match self {
            Valued::Single(SingleVal::Certain(_, p)) => Some(&p.0),
            Valued::Multi(MultiVal::Certain(_, p)) => Some(&p.0),
            _ => None,
        }
    }

    /// A copy of this id (the possible-value payload is copied pair by pair).
    pub(crate) fn duplicate(&self) -> (r: Self)
        ensures
            r.key() == self.key(),
            r.possible() == self.possible(),
            r.proj() == self.proj(),
    {
        match self {
            Valued::Single(SingleVal::Uncertain(i)) => Valued::Single(SingleVal::Uncertain(*i)),
            Valued::Single(SingleVal::Certain(i, p)) => Valued::Single(
                SingleVal::Certain(*i, AlwaysEq(duplicate_pv(&p.0))),
            ),
            Valued::Multi(MultiVal::Uncertain(i)) => Valued::Multi(MultiVal::Uncertain(*i)),
            Valued::Multi(MultiVal::Certain(i, p)) => Valued::Multi(
                MultiVal::Certain(*i, AlwaysEq(duplicate_pv(&p.0))),
            ),
        }
    }
}

/// A pair-by-pair copy of a possible-value list.
pub(crate) fn duplicate_pv(v: &PossibleValues) -> (r: PossibleValues)
    ensures
        pv_model(r) == pv_model(*v),
{
    let mut out: PossibleValues = Vec::new();
    let mut i: usize = 0;
    while i < v.len()
        invariant
            0 <= i <= v@.len(),
            out@.len() == i,
            forall|k: int|
                0 <= k < i ==> out@[k].0@ == v@[k].0@ && out@[k].1@ == v@[k].1@,
        decreases v@.len() - i,
    {
        let value = v[i].0.clone();
        let descr = v[i].1.clone();
        out.push((value, descr));
        i = i + 1;
    }
    proof {
        assert(pv_model(out) =~= pv_model(*v));
    }
    out
}

impl PartialEq for SingleVal {
    fn eq(&self, other: &Self) -> (r: bool) {
        match (self, other) {
            (SingleVal::Uncertain(a), SingleVal::Uncertain(b)) => *a == *b,
            (SingleVal::Certain(a, _), SingleVal::Certain(b, _)) => *a == *b,
            _ => false,
        }
    }
}

impl vstd::std_specs::cmp::PartialEqSpecImpl for SingleVal {
    open spec fn obeys_eq_spec() -> bool {
        true
    }

    open spec fn eq_spec(&self, other: &Self) -> bool {
        self.key() == other.key()
    }
}

impl Eq for SingleVal {
}

impl PartialEq for MultiVal {
    fn eq(&self, other: &Self) -> (r: bool) {
        match (self, other) {
            (MultiVal::Uncertain(a), MultiVal::Uncertain(b)) => *a == *b,
            (MultiVal::Certain(a, _), MultiVal::Certain(b, _)) => *a == *b,
            _ => false,
        }
    }
}

impl vstd::std_specs::cmp::PartialEqSpecImpl for MultiVal {
    open spec fn obeys_eq_spec() -> bool {
        true
    }

    open spec fn eq_spec(&self, other: &Self) -> bool {
        self.key() == other.key()
    }
}

impl Eq for MultiVal {
}

impl PartialEq for Valued {
    fn eq(&self, other: &Self) -> (r: bool) {
        match (self, other) {
            (Valued::Single(a), Valued::Single(b)) => a == b,
            (Valued::Multi(a), Valued::Multi(b)) => a == b,
            _ => false,
        }
    }
}

impl vstd::std_specs::cmp::PartialEqSpecImpl for Valued {
    open spec fn obeys_eq_spec() -> bool {
        true
    }

    open spec fn eq_spec(&self, other: &Self) -> bool {
        self.key() == other.key()
    }
}

impl Eq for Valued {
}

} // verus!

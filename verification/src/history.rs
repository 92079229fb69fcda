//! The append/update log of every flag, argument and subcommand occurrence
//! seen so far, queryable by id.
//!
//! Pushing a `NoVal` id increments a counter, pushing a `SingleVal` id
//! overwrites the stored value (latest wins), and pushing a `MultiVal` id
//! appends.  A counter that has reached `u32::MAX` stays there.

use vstd::prelude::*;

use crate::id;
use crate::id::IdKey;

verus! {

/// Occurrence record of a no-value id: how often it was seen.
#[derive(Debug, Eq, PartialEq, Structural)]
pub struct HistoryUnitNoVal {
    pub id: id::NoVal,
    pub count: u32,
}

/// Occurrence record of a single-value id: the latest value.
#[derive(Debug)]
pub struct HistoryUnitSingleVal {
    pub id: id::SingleVal,
    pub value: String,
}

/// Occurrence record of a multi-value id: all values, in push order.
#[derive(Debug)]
pub struct HistoryUnitMultiVal {
    pub id: id::MultiVal,
    pub values: Vec<String>,
}

/// One record of the history log.
#[derive(Debug)]
pub enum HistoryUnit {
    No(HistoryUnitNoVal),
    Single(HistoryUnitSingleVal),
    Multi(HistoryUnitMultiVal),
}

/// Mathematical model of one history record.
#[verifier::ext_equal]
pub enum HUnit {
    No { id: u32, count: u32 },
    Single { key: IdKey, value: Seq<char> },
    Multi { key: IdKey, values: Seq<Seq<char>> },
}

impl View for HistoryUnit {
    type V = HUnit;

    open spec fn view(&self) -> HUnit {
        match self {
            HistoryUnit::No(u) => HUnit::No { id: u.id.0, count: u.count },
            HistoryUnit::Single(u) => HUnit::Single { key: u.id.key(), value: u.value@ },
            HistoryUnit::Multi(u) => HUnit::Multi {
                key: u.id.key(),
                values: u.values.deep_view(),
            },
        }
    }
}

/// Model of a whole log.
pub open spec fn view_seq(h: Seq<HistoryUnit>) -> Seq<HUnit> {
    h.map_values(|u: HistoryUnit| u@)
}

/// Index of the first `No` record with this id.
pub open spec fn find_no_idx(h: Seq<HUnit>, id: u32, i: int) -> Option<int>
    decreases h.len() - i,
{
    if i < 0 || i >= h.len() {
        None
    } else if h[i] matches HUnit::No { id: hid, .. } && hid == id {
        Some(i)
    } else {
        find_no_idx(h, id, i + 1)
    }
}

/// Index of the first `Single` record with this key.
pub open spec fn find_single_idx(h: Seq<HUnit>, key: IdKey, i: int) -> Option<int>
    decreases h.len() - i,
{
    if i < 0 || i >= h.len() {
        None
    } else if h[i] matches HUnit::Single { key: hk, .. } && hk == key {
        Some(i)
    } else {
        find_single_idx(h, key, i + 1)
    }
}

/// Index of the first `Multi` record with this key.
pub open spec fn find_multi_idx(h: Seq<HUnit>, key: IdKey, i: int) -> Option<int>
    decreases h.len() - i,
{
    if i < 0 || i >= h.len() {
        None
    } else if h[i] matches HUnit::Multi { key: hk, .. } && hk == key {
        Some(i)
    } else {
        find_multi_idx(h, key, i + 1)
    }
}

/// A count one higher, stopping at the largest representable count.
pub open spec fn sat_inc(c: u32) -> u32 {
    if c == u32::MAX {
        c
    } else {
        (c + 1) as u32
    }
}

/// The count stored in a `No` record.
pub open spec fn no_count_at(h: Seq<HUnit>, j: int) -> u32 {
    match h[j] {
        HUnit::No { count, .. } => count,
        _ => 0,
    }
}

/// The values stored in a `Multi` record.
pub open spec fn multi_values_at(h: Seq<HUnit>, j: int) -> Seq<Seq<char>> {
    match h[j] {
        HUnit::Multi { values, .. } => values,
        _ => Seq::empty(),
    }
}

/// The log after recording a no-value id: find-or-append, increment.
pub open spec fn push_no_model(h: Seq<HUnit>, id: u32) -> Seq<HUnit> {
    match find_no_idx(h, id, 0) {
        Some(j) => h.update(j, HUnit::No { id, count: sat_inc(no_count_at(h, j)) }),
        None => h.push(HUnit::No { id, count: 1 }),
    }
}

/// The log after recording a single-value id: find-or-append, overwrite.
pub open spec fn push_single_model(h: Seq<HUnit>, key: IdKey, v: Seq<char>) -> Seq<HUnit> {
    match find_single_idx(h, key, 0) {
        Some(j) => h.update(j, HUnit::Single { key, value: v }),
        None => h.push(HUnit::Single { key, value: v }),
    }
}

/// The log after recording a multi-value id: find-or-append, append.
pub open spec fn push_multi_model(h: Seq<HUnit>, key: IdKey, v: Seq<char>) -> Seq<HUnit> {
    match find_multi_idx(h, key, 0) {
        Some(j) => h.update(
            j,
            HUnit::Multi { key, values: multi_values_at(h, j).push(v) },
        ),
        None => h.push(HUnit::Multi { key, values: seq![v] }),
    }
}

/// The log after recording a value for an id of either arity.
pub open spec fn push_valued_model(h: Seq<HUnit>, vk: (bool, IdKey), v: Seq<char>) -> Seq<
    HUnit,
> {
    if vk.0 {
        push_multi_model(h, vk.1, v)
    } else {
        push_single_model(h, vk.1, v)
    }
}

/// How an id selects and projects the history record that answers it.
pub trait Getter: Sized {
    type Ret;

    /// The projection of one record, when this id matches it.
    spec fn cast_spec(&self, h: HistoryUnit) -> Option<Self::Ret>;

    /// Match one record against this id and project it.
    fn match_and_cast<'a>(&self, h: &'a HistoryUnit) -> (r: Option<&'a Self::Ret>)
        ensures
            match r {
                Some(x) => self.cast_spec(*h) == Some(*x),
                None => self.cast_spec(*h) is None,
            },
    ;
}

impl Getter for id::NoVal {
    type Ret = HistoryUnitNoVal;

    open spec fn cast_spec(&self, h: HistoryUnit) -> Option<HistoryUnitNoVal> {
        match h {
            HistoryUnit::No(u) => if u.id == *self {
                Some(u)
            } else {
                None
            },
            _ => None,
        }
    }

    fn match_and_cast<'a>(&self, h: &'a HistoryUnit) -> (r: Option<&'a HistoryUnitNoVal>) {
        match h {
            HistoryUnit::No(u) => if u.id == *self {
                Some(u)
            } else {
                None
            },
            _ => None,
        }
    }
}

impl Getter for id::SingleVal {
    type Ret = HistoryUnitSingleVal;

    open spec fn cast_spec(&self, h: HistoryUnit) -> Option<HistoryUnitSingleVal> {
        match h {
            HistoryUnit::Single(u) => if u.id.key() == self.key() {
                Some(u)
            } else {
                None
            },
            _ => None,
        }
    }

    fn match_and_cast<'a>(&self, h: &'a HistoryUnit) -> (r: Option<&'a HistoryUnitSingleVal>) {
        match h {
            HistoryUnit::Single(u) => if u.id == *self {
                Some(u)
            } else {
                None
            },
            _ => None,
        }
    }
}

impl Getter for id::MultiVal {
    type Ret = HistoryUnitMultiVal;

    open spec fn cast_spec(&self, h: HistoryUnit) -> Option<HistoryUnitMultiVal> {
        match h {
            HistoryUnit::Multi(u) => if u.id.key() == self.key() {
                Some(u)
            } else {
                None
            },
            _ => None,
        }
    }

    fn match_and_cast<'a>(&self, h: &'a HistoryUnit) -> (r: Option<&'a HistoryUnitMultiVal>) {
        match h {
            HistoryUnit::Multi(u) => if u.id == *self {
                Some(u)
            } else {
                None
            },
            _ => None,
        }
    }
}

/// The first record an id matches, projected.
pub open spec fn find_model<I: Getter>(id: I, h: Seq<HistoryUnit>, i: int) -> Option<I::Ret>
    decreases h.len() - i,
{
    if i < 0 || i >= h.len() {
        None
    } else {
        match id.cast_spec(h[i]) {
            Some(x) => Some(x),
            None => find_model(id, h, i + 1),
        }
    }
}

/// The log of everything seen so far in one completion request.
#[derive(Debug)]
pub struct History(pub Vec<HistoryUnit>);

impl View for History {
    type V = Seq<HUnit>;

    open spec fn view(&self) -> Seq<HUnit> {
        view_seq(self.0@)
    }
}

impl History {
    pub fn new() -> (r: Self)
        ensures
            r@ == Seq::<HUnit>::empty(),
            r.0@ == Seq::<HistoryUnit>::empty(),
    {
        let r = History(Vec::new());
        proof {
            assert(r@ =~= Seq::<HUnit>::empty());
        }
        r
    }

    /// Record an occurrence of a no-value id.
    pub fn push_no_val(&mut self, id: id::NoVal)
        ensures
            final(self)@ == push_no_model(old(self)@, id.0),
    {
        let ghost hm = self@;
        let n = self.0.len();
        let mut j: usize = 0;
        while j < n
            invariant
                0 <= j <= n,
                n == self.0@.len(),
                self@ == hm,
                self.0@ == old(self).0@,
                find_no_idx(hm, id.0, 0) == find_no_idx(hm, id.0, j as int),
            decreases n - j,
        {
            let found = match &self.0[j] {
                HistoryUnit::No(u) => u.id == id,
                _ => false,
            };
            proof {
                assert(hm[j as int] == self.0@[j as int]@);
            }
            if found {
                let unit = self.0.remove(j);
                let count = match &unit {
                    HistoryUnit::No(u) => u.count,
                    _ => 0,
                };
                let new_count = if count < u32::MAX {
                    count + 1
                } else {
                    count
                };
                self.0.insert(j, HistoryUnit::No(HistoryUnitNoVal { id, count: new_count }));
                proof {
                    assert(find_no_idx(hm, id.0, j as int) == Some(j as int));
                    assert(self@ =~= push_no_model(hm, id.0));
                }
                return ;
            }
            j = j + 1;
        }
        self.0.push(HistoryUnit::No(HistoryUnitNoVal { id, count: 1 }));
        proof {
            assert(find_no_idx(hm, id.0, n as int) is None);
            assert(self@ =~= push_no_model(hm, id.0));
        }
    }

    /// Record a value for a single-value id; the latest value wins.
    pub fn push_single_val(&mut self, id: id::SingleVal, value: String)
        ensures
            final(self)@ == push_single_model(old(self)@, id.key(), value@),
    {
        let ghost hm = self@;
        let ghost key = id.key();
        let n = self.0.len();
        let mut j: usize = 0;
        while j < n
            invariant
                0 <= j <= n,
                n == self.0@.len(),
                self@ == hm,
                self.0@ == old(self).0@,
                key == id.key(),
                find_single_idx(hm, key, 0) == find_single_idx(hm, key, j as int),
            decreases n - j,
        {
            let found = match &self.0[j] {
                HistoryUnit::Single(u) => u.id == id,
                _ => false,
            };
            proof {
                assert(hm[j as int] == self.0@[j as int]@);
                if found {
                    assert(self.0@[j as int] matches HistoryUnit::Single(u2) && u2.id.key()
                        == key);
                    assert(hm[j as int] matches HUnit::Single { key: hk, .. } && hk == key);
                } else {
                    assert(!(hm[j as int] matches HUnit::Single { key: hk, .. } && hk == key));
                }
            }
            if found {
                let unit = self.0.remove(j);
                let new_unit = match unit {
                    HistoryUnit::Single(mut u) => {
                        u.value = value;
                        HistoryUnit::Single(u)
                    },
                    u => u,
                };
                self.0.insert(j, new_unit);
                proof {
                    assert(find_single_idx(hm, key, j as int) == Some(j as int));
                    assert(self@ =~= push_single_model(hm, key, value@));
                }
                return ;
            }
            j = j + 1;
        }
        self.0.push(HistoryUnit::Single(HistoryUnitSingleVal { id, value }));
        proof {
            assert(find_single_idx(hm, key, n as int) is None);
            assert(self@ =~= push_single_model(hm, key, value@));
        }
    }

    /// Record a value for a multi-value id; values accumulate in push order.
    pub fn push_multi_val(&mut self, id: id::MultiVal, value: String)
        ensures
            final(self)@ == push_multi_model(old(self)@, id.key(), value@),
    {
        let ghost hm = self@;
        let ghost key = id.key();
        let n = self.0.len();
        let mut j: usize = 0;
        while j < n
            invariant
                0 <= j <= n,
                n == self.0@.len(),
                self@ == hm,
                self.0@ == old(self).0@,
                key == id.key(),
                find_multi_idx(hm, key, 0) == find_multi_idx(hm, key, j as int),
            decreases n - j,
        {
            let found = match &self.0[j] {
                HistoryUnit::Multi(u) => u.id == id,
                _ => false,
            };
            proof {
                assert(hm[j as int] == self.0@[j as int]@);
                if found {
                    assert(self.0@[j as int] matches HistoryUnit::Multi(u2) && u2.id.key()
                        == key);
                    assert(hm[j as int] matches HUnit::Multi { key: hk, .. } && hk == key);
                } else {
                    assert(!(hm[j as int] matches HUnit::Multi { key: hk, .. } && hk == key));
                }
            }
            if found {
                let unit = self.0.remove(j);
                let new_unit = match unit {
                    HistoryUnit::Multi(mut u) => {
                        u.values.push(value);
                        HistoryUnit::Multi(u)
                    },
                    u => u,
                };
                self.0.insert(j, new_unit);
                proof {
                    assert(find_multi_idx(hm, key, j as int) == Some(j as int));
                    assert(self@ =~~= push_multi_model(hm, key, value@));
                }
                return ;
            }
            j = j + 1;
        }
        let mut values: Vec<String> = Vec::new();
        values.push(value);
        self.0.push(HistoryUnit::Multi(HistoryUnitMultiVal { id, values }));
        proof {
            assert(find_multi_idx(hm, key, n as int) is None);
            assert(self@ =~~= push_multi_model(hm, key, value@));
        }
    }

    /// Record a value for an id of either arity.
    pub fn push_valued(&mut self, id: id::Valued, value: String)
        ensures
            final(self)@ == push_valued_model(old(self)@, id.key(), value@),
    {
        match id {
            id::Valued::Single(id) => self.push_single_val(id, value),
            id::Valued::Multi(id) => self.push_multi_val(id, value),
        }
    }

    /// The first record that matches `id`, projected to its payload.
    pub fn find<I: Getter>(&self, id: &I) -> (r: Option<&I::Ret>)
        ensures
            match r {
                Some(x) => find_model(*id, self.0@, 0) == Some(*x),
                None => find_model(*id, self.0@, 0) is None,
            },
    {
        let n = self.0.len();
        let mut j: usize = 0;
        while j < n
            invariant
                0 <= j <= n,
                n == self.0@.len(),
                find_model(*id, self.0@, 0) == find_model(*id, self.0@, j as int),
            decreases n - j,
        {
            let r = id.match_and_cast(&self.0[j]);
            if r.is_some() {
                return r;
            }
            j = j + 1;
        }
        None
    }

    pub fn from_vec(value: Vec<HistoryUnit>) -> (r: Self)
        ensures
            r.0@ == value@,
    {
        History(value)
    }

    pub fn into_inner(self) -> (r: Vec<HistoryUnit>)
        ensures
            r@ == self.0@,
    {
        self.0
    }
}

} // verus!


verus! {

/// `find` with a `NoVal` id answers exactly the first `No` record with that
/// id, as seen through the model.
pub proof fn lemma_find_no_bridge(h: Seq<HistoryUnit>, id: id::NoVal, i: int)
    requires
        0 <= i,
    ensures
        match (find_model(id, h, i), find_no_idx(view_seq(h), id.0, i)) {
            (Some(u), Some(j)) => view_seq(h)[j] == (HUnit::No { id: u.id.0, count: u.count }),
            (None, None) => true,
            _ => false,
        },
    decreases h.len() - i,
{
    if i < h.len() {
        assert(view_seq(h)[i] == h[i]@);
        match h[i] {
            HistoryUnit::No(u) => if u.id == id {
            } else {
                lemma_find_no_bridge(h, id, i + 1);
            },
            _ => {
                lemma_find_no_bridge(h, id, i + 1);
            },
        }
    }
}

/// `find` with a `SingleVal` id answers exactly the first `Single` record
/// with that id's key, as seen through the model.
pub proof fn lemma_find_single_bridge(h: Seq<HistoryUnit>, id: id::SingleVal, i: int)
    requires
        0 <= i,
    ensures
        match (find_model(id, h, i), find_single_idx(view_seq(h), id.key(), i)) {
            (Some(u), Some(j)) => view_seq(h)[j] == (HUnit::Single {
                key: u.id.key(),
                value: u.value@,
            }) && u.id.key() == id.key(),
            (None, None) => true,
            _ => false,
        },
    decreases h.len() - i,
{
    if i < h.len() {
        assert(view_seq(h)[i] == h[i]@);
        match h[i] {
            HistoryUnit::Single(u) => if u.id.key() == id.key() {
            } else {
                lemma_find_single_bridge(h, id, i + 1);
            },
            _ => {
                lemma_find_single_bridge(h, id, i + 1);
            },
        }
    }
}

/// `find` with a `MultiVal` id answers exactly the first `Multi` record with
/// that id's key, as seen through the model.
pub proof fn lemma_find_multi_bridge(h: Seq<HistoryUnit>, id: id::MultiVal, i: int)
    requires
        0 <= i,
    ensures
        match (find_model(id, h, i), find_multi_idx(view_seq(h), id.key(), i)) {
            (Some(u), Some(j)) => view_seq(h)[j] == (HUnit::Multi {
                key: u.id.key(),
                values: u.values.deep_view(),
            }) && u.id.key() == id.key(),
            (None, None) => true,
            _ => false,
        },
    decreases h.len() - i,
{
    if i < h.len() {
        assert(view_seq(h)[i] == h[i]@);
        match h[i] {
            HistoryUnit::Multi(u) => if u.id.key() == id.key() {
            } else {
                lemma_find_multi_bridge(h, id, i + 1);
            },
            _ => {
                lemma_find_multi_bridge(h, id, i + 1);
            },
        }
    }
}

} // verus!

verus! {

/// The value stored in a `Single` record.
pub open spec fn single_value_at(h: Seq<HUnit>, j: int) -> Seq<char> {
    match h[j] {
        HUnit::Single { value, .. } => value,
        _ => Seq::empty(),
    }
}

/// The count recorded for a no-value id: zero while it is absent.
pub open spec fn count_of(h: Seq<HUnit>, id: u32) -> int {
    match find_no_idx(h, id, 0) {
        Some(j) => no_count_at(h, j) as int,
        None => 0,
    }
}

/// The log after recording a sequence of values for one multi-value key.
pub open spec fn push_multi_many(h: Seq<HUnit>, key: IdKey, vs: Seq<Seq<char>>) -> Seq<HUnit>
    decreases vs.len(),
{
    if vs.len() == 0 {
        h
    } else {
        push_multi_many(push_multi_model(h, key, vs[0]), key, vs.skip(1))
    }
}

/// The log after recording a sequence of values for one single-value key.
pub open spec fn push_single_many(h: Seq<HUnit>, key: IdKey, vs: Seq<Seq<char>>) -> Seq<HUnit>
    decreases vs.len(),
{
    if vs.len() == 0 {
        h
    } else {
        push_single_many(push_single_model(h, key, vs[0]), key, vs.skip(1))
    }
}

/// The log after recording a no-value id `k` times.
pub open spec fn push_no_many(h: Seq<HUnit>, id: u32, k: nat) -> Seq<HUnit>
    decreases k,
{
    if k == 0 {
        h
    } else {
        push_no_many(push_no_model(h, id), id, (k - 1) as nat)
    }
}

/// One multi-value push finds or appends its record: the record's position is
/// stable and its values grow by exactly the pushed value, at the end.
pub proof fn lemma_push_multi_find(h: Seq<HUnit>, key: IdKey, v: Seq<char>)
    ensures
        match find_multi_idx(h, key, 0) {
            Some(j) => find_multi_idx(push_multi_model(h, key, v), key, 0) == Some(j)
                && multi_values_at(push_multi_model(h, key, v), j) == multi_values_at(h, j).push(
                v,
            ),
            None => find_multi_idx(push_multi_model(h, key, v), key, 0) == Some(h.len() as int)
                && multi_values_at(push_multi_model(h, key, v), h.len() as int) == seq![v],
        },
{
    match find_multi_idx(h, key, 0) {
        Some(j) => {
            lemma_find_multi_idx_bounds(h, key, 0);
            let h2 = h.update(j, HUnit::Multi { key, values: multi_values_at(h, j).push(v) });
            lemma_find_multi_idx_update(h, h2, key, 0, j);
        },
        None => {
            let h2 = h.push(HUnit::Multi { key, values: seq![v] });
            lemma_find_multi_idx_append(h, h2, key, 0);
        },
    }
}

/// A found index is in bounds, matches the key, and earlier records do not.
pub proof fn lemma_find_multi_idx_bounds(h: Seq<HUnit>, key: IdKey, i: int)
    requires
        0 <= i,
    ensures
        match find_multi_idx(h, key, i) {
            Some(j) => i <= j < h.len() && (h[j] matches HUnit::Multi { key: hk, .. } && hk
                == key) && (forall|m: int|
                i <= m < j ==> !(#[trigger] h[m] matches HUnit::Multi { key: hk2, .. } && hk2
                    == key)),
            None => forall|m: int|
                i <= m < h.len() ==> !(#[trigger] h[m] matches HUnit::Multi { key: hk2, .. }
                    && hk2 == key),
        },
    decreases h.len() - i,
{
    if i < h.len() {
        lemma_find_multi_idx_bounds(h, key, i + 1);
    }
}

/// Updating the found record in place does not move it.
proof fn lemma_find_multi_idx_update(h: Seq<HUnit>, h2: Seq<HUnit>, key: IdKey, i: int, j: int)
    requires
        0 <= i <= j,
        find_multi_idx(h, key, i) == Some(j),
        h2.len() == h.len(),
        (h2[j] matches HUnit::Multi { key: hk, .. } && hk == key),
        forall|m: int| 0 <= m < h.len() && m != j ==> h2[m] == h[m],
    ensures
        find_multi_idx(h2, key, i) == Some(j),
    decreases h.len() - i,
{
    lemma_find_multi_idx_bounds(h, key, i);
    if i < j {
        lemma_find_multi_idx_update(h, h2, key, i + 1, j);
    }
}

/// Appending a matching record to a log without one makes it the found one.
proof fn lemma_find_multi_idx_append(h: Seq<HUnit>, h2: Seq<HUnit>, key: IdKey, i: int)
    requires
        0 <= i <= h.len(),
        find_multi_idx(h, key, i) is None,
        h2.len() == h.len() + 1,
        (h2[h.len() as int] matches HUnit::Multi { key: hk, .. } && hk == key),
        forall|m: int| 0 <= m < h.len() ==> h2[m] == h[m],
    ensures
        find_multi_idx(h2, key, i) == Some(h.len() as int),
    decreases h.len() - i,
{
    if i < h.len() {
        lemma_find_multi_idx_append(h, h2, key, i + 1);
    }
}

/// After `k` pushes to a multi-value key, its record holds the values it
/// already had followed by the `k` pushed values, in push order.
pub proof fn lemma_multi_pushes_in_order(h: Seq<HUnit>, key: IdKey, vs: Seq<Seq<char>>)
    ensures
        ({
            let h2 = push_multi_many(h, key, vs);
            match find_multi_idx(h, key, 0) {
                Some(j) => find_multi_idx(h2, key, 0) == Some(j) && multi_values_at(h2, j)
                    == multi_values_at(h, j) + vs,
                None => if vs.len() == 0 {
                    h2 == h
                } else {
                    find_multi_idx(h2, key, 0) == Some(h.len() as int) && multi_values_at(
                        h2,
                        h.len() as int,
                    ) == vs
                },
            }
        }),
    decreases vs.len(),
{
    if vs.len() == 0 {
        match find_multi_idx(h, key, 0) {
            Some(j) => {
                assert(multi_values_at(h, j) + vs =~= multi_values_at(h, j));
            },
            None => {},
        }
    } else {
        lemma_push_multi_find(h, key, vs[0]);
        let h1 = push_multi_model(h, key, vs[0]);
        lemma_multi_pushes_in_order(h1, key, vs.skip(1));
        match find_multi_idx(h, key, 0) {
            Some(j) => {
                assert(multi_values_at(h, j).push(vs[0]) + vs.skip(1) =~= multi_values_at(h, j)
                    + vs);
            },
            None => {
                if h1.len() == h.len() + 1 {
                }
                assert(seq![vs[0]] + vs.skip(1) =~= vs);
            },
        }
    }
}

/// One single-value push finds or appends its record, which then holds
/// exactly the pushed value.
pub proof fn lemma_push_single_find(h: Seq<HUnit>, key: IdKey, v: Seq<char>)
    ensures
        ({
            let h2 = push_single_model(h, key, v);
            match find_single_idx(h, key, 0) {
                Some(j) => find_single_idx(h2, key, 0) == Some(j) && single_value_at(h2, j)
                    == v,
                None => find_single_idx(h2, key, 0) == Some(h.len() as int) && single_value_at(
                    h2,
                    h.len() as int,
                ) == v,
            }
        }),
{
    match find_single_idx(h, key, 0) {
        Some(j) => {
            lemma_find_single_idx_bounds(h, key, 0);
            let h2 = h.update(j, HUnit::Single { key, value: v });
            lemma_find_single_idx_update(h, h2, key, 0, j);
        },
        None => {
            let h2 = h.push(HUnit::Single { key, value: v });
            lemma_find_single_idx_append(h, h2, key, 0);
        },
    }
}

/// A found index is in bounds, matches the key, and earlier records do not.
pub proof fn lemma_find_single_idx_bounds(h: Seq<HUnit>, key: IdKey, i: int)
    requires
        0 <= i,
    ensures
        match find_single_idx(h, key, i) {
            Some(j) => i <= j < h.len() && (h[j] matches HUnit::Single { key: hk, .. } && hk
                == key),
            None => forall|m: int|
                i <= m < h.len() ==> !(#[trigger] h[m] matches HUnit::Single { key: hk2, .. }
                    && hk2 == key),
        },
    decreases h.len() - i,
{
    if i < h.len() {
        lemma_find_single_idx_bounds(h, key, i + 1);
    }
}

/// Updating the found record in place does not move it.
proof fn lemma_find_single_idx_update(h: Seq<HUnit>, h2: Seq<HUnit>, key: IdKey, i: int, j: int)
    requires
        0 <= i <= j,
        find_single_idx(h, key, i) == Some(j),
        h2.len() == h.len(),
        (h2[j] matches HUnit::Single { key: hk, .. } && hk == key),
        forall|m: int| 0 <= m < h.len() && m != j ==> h2[m] == h[m],
    ensures
        find_single_idx(h2, key, i) == Some(j),
    decreases h.len() - i,
{
    lemma_find_single_idx_bounds(h, key, i);
    if i < j {
        lemma_find_single_idx_update(h, h2, key, i + 1, j);
    }
}

/// Appending a matching record to a log without one makes it the found one.
proof fn lemma_find_single_idx_append(h: Seq<HUnit>, h2: Seq<HUnit>, key: IdKey, i: int)
    requires
        0 <= i <= h.len(),
        find_single_idx(h, key, i) is None,
        h2.len() == h.len() + 1,
        (h2[h.len() as int] matches HUnit::Single { key: hk, .. } && hk == key),
        forall|m: int| 0 <= m < h.len() ==> h2[m] == h[m],
    ensures
        find_single_idx(h2, key, i) == Some(h.len() as int),
    decreases h.len() - i,
{
    if i < h.len() {
        lemma_find_single_idx_append(h, h2, key, i + 1);
    }
}

/// After any number of pushes to a single-value key, its record holds only
/// the latest pushed value.
pub proof fn lemma_single_latest_wins(h: Seq<HUnit>, key: IdKey, vs: Seq<Seq<char>>)
    requires
        vs.len() >= 1,
    ensures
        ({
            let h2 = push_single_many(h, key, vs);
            match find_single_idx(h2, key, 0) {
                Some(j) => single_value_at(h2, j) == vs.last(),
                None => false,
            }
        }),
    decreases vs.len(),
{
    lemma_push_single_find(h, key, vs[0]);
    let h1 = push_single_model(h, key, vs[0]);
    assert(push_single_many(h, key, vs) == push_single_many(h1, key, vs.skip(1)));
    if vs.len() == 1 {
        assert(vs.skip(1).len() == 0);
        assert(push_single_many(h1, key, vs.skip(1)) == h1);
        assert(vs.last() == vs[0]);
    } else {
        lemma_single_latest_wins(h1, key, vs.skip(1));
        assert(vs.skip(1).last() == vs.last());
    }
}

/// One no-value push finds or appends its record and raises its count by
/// one, while the count stays representable.
pub proof fn lemma_push_no_find(h: Seq<HUnit>, id: u32)
    requires
        count_of(h, id) < u32::MAX,
    ensures
        count_of(push_no_model(h, id), id) == count_of(h, id) + 1,
{
    match find_no_idx(h, id, 0) {
        Some(j) => {
            lemma_find_no_idx_bounds(h, id, 0);
            let h2 = h.update(j, HUnit::No { id, count: sat_inc(no_count_at(h, j)) });
            lemma_find_no_idx_update(h, h2, id, 0, j);
        },
        None => {
            let h2 = h.push(HUnit::No { id, count: 1 });
            lemma_find_no_idx_append(h, h2, id, 0);
        },
    }
}

/// A found index is in bounds, matches the id, and earlier records do not.
pub proof fn lemma_find_no_idx_bounds(h: Seq<HUnit>, id: u32, i: int)
    requires
        0 <= i,
    ensures
        match find_no_idx(h, id, i) {
            Some(j) => i <= j < h.len() && (h[j] matches HUnit::No { id: hid, .. } && hid == id),
            None => forall|m: int|
                i <= m < h.len() ==> !(#[trigger] h[m] matches HUnit::No { id: hid2, .. }
                    && hid2 == id),
        },
    decreases h.len() - i,
{
    if i < h.len() {
        lemma_find_no_idx_bounds(h, id, i + 1);
    }
}

/// Updating the found record in place does not move it.
proof fn lemma_find_no_idx_update(h: Seq<HUnit>, h2: Seq<HUnit>, id: u32, i: int, j: int)
    requires
        0 <= i <= j,
        find_no_idx(h, id, i) == Some(j),
        h2.len() == h.len(),
        (h2[j] matches HUnit::No { id: hid, .. } && hid == id),
        forall|m: int| 0 <= m < h.len() && m != j ==> h2[m] == h[m],
    ensures
        find_no_idx(h2, id, i) == Some(j),
    decreases h.len() - i,
{
    lemma_find_no_idx_bounds(h, id, i);
    if i < j {
        lemma_find_no_idx_update(h, h2, id, i + 1, j);
    }
}

/// Appending a matching record to a log without one makes it the found one.
proof fn lemma_find_no_idx_append(h: Seq<HUnit>, h2: Seq<HUnit>, id: u32, i: int)
    requires
        0 <= i <= h.len(),
        find_no_idx(h, id, i) is None,
        h2.len() == h.len() + 1,
        (h2[h.len() as int] matches HUnit::No { id: hid, .. } && hid == id),
        forall|m: int| 0 <= m < h.len() ==> h2[m] == h[m],
    ensures
        find_no_idx(h2, id, i) == Some(h.len() as int),
    decreases h.len() - i,
{
    if i < h.len() {
        lemma_find_no_idx_append(h, h2, id, i + 1);
    }
}

/// After `k` pushes of a no-value id, its recorded count has grown by `k`,
/// as long as the count stays representable.
pub proof fn lemma_no_count_is_push_count(h: Seq<HUnit>, id: u32, k: nat)
    requires
        count_of(h, id) + k <= u32::MAX,
    ensures
        count_of(push_no_many(h, id, k), id) == count_of(h, id) + k,
    decreases k,
{
    if k > 0 {
        lemma_push_no_find(h, id);
        lemma_no_count_is_push_count(push_no_model(h, id), id, (k - 1) as nat);
    }
}

} // verus!

verus! {

/// Element-wise equality of two string vectors.
fn string_vec_eq(a: &Vec<String>, b: &Vec<String>) -> (r: bool)
    ensures
        r == (a.deep_view() == b.deep_view()),
{
    let n = a.len();
    if n != b.len() {
        proof {
            assert(a.deep_view().len() == a@.len());
            assert(b.deep_view().len() == b@.len());
        }
        return false;
    }
    let mut i: usize = 0;
    while i < n
        invariant
            0 <= i <= n,
            n == a@.len(),
            n == b@.len(),
            forall|k: int| 0 <= k < i ==> a@[k]@ == b@[k]@,
        decreases n - i,
    {
        if !crate::strutil::str_eq(a[i].as_str(), b[i].as_str()) {
            proof {
                assert(a.deep_view()[i as int] == a@[i as int]@);
                assert(b.deep_view()[i as int] == b@[i as int]@);
            }
            return false;
        }
        i = i + 1;
    }
    proof {
        assert(a.deep_view() =~= b.deep_view());
    }
    true
}

impl PartialEq for HistoryUnitSingleVal {
    fn eq(&self, other: &Self) -> (r: bool) {
        self.id == other.id && crate::strutil::str_eq(
            self.value.as_str(),
            other.value.as_str(),
        )
    }
}

impl vstd::std_specs::cmp::PartialEqSpecImpl for HistoryUnitSingleVal {
    open spec fn obeys_eq_spec() -> bool {
        true
    }

    open spec fn eq_spec(&self, other: &Self) -> bool {
        self.id.key() == other.id.key() && self.value@ == other.value@
    }
}

impl Eq for HistoryUnitSingleVal {
}

impl PartialEq for HistoryUnitMultiVal {
    fn eq(&self, other: &Self) -> (r: bool) {
        self.id == other.id && string_vec_eq(&self.values, &other.values)
    }
}

impl vstd::std_specs::cmp::PartialEqSpecImpl for HistoryUnitMultiVal {
    open spec fn obeys_eq_spec() -> bool {
        true
    }

    open spec fn eq_spec(&self, other: &Self) -> bool {
        self.id.key() == other.id.key() && self.values.deep_view() == other.values.deep_view()
    }
}

impl Eq for HistoryUnitMultiVal {
}

impl PartialEq for HistoryUnit {
    fn eq(&self, other: &Self) -> (r: bool) {
        match (self, other) {
            (HistoryUnit::No(a), HistoryUnit::No(b)) => a == b,
            (HistoryUnit::Single(a), HistoryUnit::Single(b)) => a == b,
            (HistoryUnit::Multi(a), HistoryUnit::Multi(b)) => a == b,
            _ => false,
        }
    }
}

impl vstd::std_specs::cmp::PartialEqSpecImpl for HistoryUnit {
    open spec fn obeys_eq_spec() -> bool {
        true
    }

    open spec fn eq_spec(&self, other: &Self) -> bool {
        self@ == other@
    }
}

impl Eq for HistoryUnit {
}

} // verus!


//! The configuration of a schema-generation run: which flags and subcommands
//! to leave out, and which commands to rename.  Every entry remembers whether
//! a run has used it, so unused entries can be reported.

use vstd::prelude::*;

use crate::error::GenerateError;
use crate::strutil;

use super::Trace;

verus! {

/// A configuration key: the path of identifiers from the root.
pub type KeyModel = Seq<Seq<char>>;

/// Model of an ignore list.
pub open spec fn ig_view(v: Seq<(Vec<String>, bool)>) -> Seq<(KeyModel, bool)> {
    v.map_values(|e: (Vec<String>, bool)| (e.0.deep_view(), e.1))
}

/// Model of a rename list.
pub open spec fn rn_view(v: Seq<(Vec<String>, (bool, String))>) -> Seq<
    (KeyModel, (bool, Seq<char>)),
> {
    v.map_values(|e: (Vec<String>, (bool, String))| (e.0.deep_view(), (e.1.0, e.1.1@)))
}

/// Index of the first entry with this key.
pub open spec fn find_key_idx<T>(s: Seq<(KeyModel, T)>, k: KeyModel, i: int) -> Option<int>
    decreases s.len() - i,
{
    if i < 0 || i >= s.len() {
        None
    } else if s[i].0 == k {
        Some(i)
    } else {
        find_key_idx(s, k, i + 1)
    }
}

/// A list with one entry set: replaced in place, or appended.
pub open spec fn upsert<T>(s: Seq<(KeyModel, T)>, k: KeyModel, t: T) -> Seq<(KeyModel, T)> {
    match find_key_idx(s, k, 0) {
        Some(j) => s.update(j, (k, t)),
        None => s.push((k, t)),
    }
}

/// The key a configuration entry is looked up by at one point of the walk.
pub open spec fn trace_key(prev: Seq<Trace>, id: Seq<char>) -> KeyModel {
    prev.map_values(|t: Trace| t.cmd_id@).push(id)
}

/// The keys of the entries a run has not used.
pub open spec fn unused_keys<T>(s: Seq<(KeyModel, (bool, T))>, i: int) -> Seq<KeyModel>
    decreases s.len() - i,
{
    if i < 0 || i >= s.len() {
        Seq::empty()
    } else if !s[i].1.0 {
        seq![s[i].0] + unused_keys(s, i + 1)
    } else {
        unused_keys(s, i + 1)
    }
}

/// The keys of the ignore entries a run has not used.
pub open spec fn unused_ig_keys(s: Seq<(KeyModel, bool)>, i: int) -> Seq<KeyModel>
    decreases s.len() - i,
{
    if i < 0 || i >= s.len() {
        Seq::empty()
    } else if !s[i].1 {
        seq![s[i].0] + unused_ig_keys(s, i + 1)
    } else {
        unused_ig_keys(s, i + 1)
    }
}

/// How a schema-generation run is steered.
#[derive(Debug)]
pub struct Config {
    pub ignore: Vec<(Vec<String>, bool)>,
    pub rename_cmd: Vec<(Vec<String>, (bool, String))>,
    pub strict: bool,
}

impl Config {
    /// Model of the ignore entries: key, and whether a run used the entry.
    pub open spec fn ig(self) -> Seq<(KeyModel, bool)> {
        ig_view(self.ignore@)
    }

    /// Model of the rename entries: key, whether used, and the new name.
    pub open spec fn rn(self) -> Seq<(KeyModel, (bool, Seq<char>))> {
        rn_view(self.rename_cmd@)
    }

    pub fn new() -> (r: Self)
        ensures
            r.ig() == Seq::<(KeyModel, bool)>::empty(),
            r.rn() == Seq::<(KeyModel, (bool, Seq<char>))>::empty(),
            r.strict,
    {
        let r = Config { strict: true, ignore: Vec::new(), rename_cmd: Vec::new() };
        proof {
            assert(r.ig() =~= Seq::<(KeyModel, bool)>::empty());
            assert(r.rn() =~= Seq::<(KeyModel, (bool, Seq<char>))>::empty());
        }
        r
    }

    /// Leave a certain flag or subcommand out of the generated schema.
    pub fn ignore(self, ids: &[&str]) -> (r: Self)
        ensures
            r.ig() == upsert(self.ig(), ids.deep_view(), false),
            r.rn() == self.rn(),
            r.strict == self.strict,
    {
        let key = to_key(ids);
        let Config { mut ignore, rename_cmd, strict } = self;
        let ghost ig0 = ig_view(ignore@);
        let n = ignore.len();
        let mut j: usize = 0;
        while j < n
            invariant
                0 <= j <= n,
                n == ignore@.len(),
                ig0 == ig_view(ignore@),
                ig0 == self.ig(),
                rn_view(rename_cmd@) == self.rn(),
                strict == self.strict,
                key.deep_view() == ids.deep_view(),
                find_key_idx(ig0, ids.deep_view(), 0) == find_key_idx(
                    ig0,
                    ids.deep_view(),
                    j as int,
                ),
            decreases n - j,
        {
            proof {
                assert(ig0[j as int] == (ignore@[j as int].0.deep_view(), ignore@[j as int].1));
            }
            if key_eq(&ignore[j].0, &key) {
                let prev = ignore.remove(j);
                ignore.insert(j, (prev.0, false));
                let r = Config { ignore, rename_cmd, strict };
                proof {
                    assert(r.ig() =~~= upsert(ig0, ids.deep_view(), false));
                }
                return r;
            }
            j = j + 1;
        }
        ignore.push((key, false));
        let r = Config { ignore, rename_cmd, strict };
        proof {
            assert(r.ig() =~~= upsert(ig0, ids.deep_view(), false));
        }
        r
    }

    /// Rename a certain command in the generated source, without changing any
    /// completion behaviour.
    pub fn rename_cmd(self, ids: &[&str], new_name: &str) -> (r: Self)
        ensures
            r.rn() == upsert(self.rn(), ids.deep_view(), (false, new_name@)),
            r.ig() == self.ig(),
            r.strict == self.strict,
    {
        let key = to_key(ids);
        let Config { ignore, mut rename_cmd, strict } = self;
        let ghost rn0 = rn_view(rename_cmd@);
        let n = rename_cmd.len();
        let mut j: usize = 0;
        while j < n
            invariant
                0 <= j <= n,
                n == rename_cmd@.len(),
                rn0 == rn_view(rename_cmd@),
                rn0 == self.rn(),
                ig_view(ignore@) == self.ig(),
                strict == self.strict,
                key.deep_view() == ids.deep_view(),
                find_key_idx(rn0, ids.deep_view(), 0) == find_key_idx(
                    rn0,
                    ids.deep_view(),
                    j as int,
                ),
            decreases n - j,
        {
            proof {
                assert(rn0[j as int] == (
                    rename_cmd@[j as int].0.deep_view(),
                    (rename_cmd@[j as int].1.0, rename_cmd@[j as int].1.1@),
                ));
            }
            if key_eq(&rename_cmd[j].0, &key) {
                let prev = rename_cmd.remove(j);
                rename_cmd.insert(j, (prev.0, (false, new_name.to_owned())));
                let r = Config { ignore, rename_cmd, strict };
                proof {
                    assert(r.rn() =~~= upsert(rn0, ids.deep_view(), (false, new_name@)));
                }
                return r;
            }
            j = j + 1;
        }
        rename_cmd.push((key, (false, new_name.to_owned())));
        let r = Config { ignore, rename_cmd, strict };
        proof {
            assert(r.rn() =~~= upsert(rn0, ids.deep_view(), (false, new_name@)));
        }
        r
    }

    /// Whether the walk's current entry is ignored; a hit marks the entry
    /// used.
    pub fn is_ignored(&mut self, prev: &[Trace], id: &str) -> (r: bool)
        ensures
            final(self).rn() == old(self).rn(),
            final(self).strict == old(self).strict,
            match find_key_idx(old(self).ig(), trace_key(prev@, id@), 0) {
                Some(j) => r && final(self).ig() == old(self).ig().update(j, (trace_key(
                    prev@,
                    id@,
                ), true)),
                None => !r && final(self).ig() == old(self).ig(),
            },
    {
        let key = trace_to_key(prev, id);
        let ghost ig0 = self.ig();
        let n = self.ignore.len();
        let mut j: usize = 0;
        while j < n
            invariant
                0 <= j <= n,
                n == self.ignore@.len(),
                self.ignore@ == old(self).ignore@,
                self.rename_cmd@ == old(self).rename_cmd@,
                self.strict == old(self).strict,
                ig0 == ig_view(self.ignore@),
                key.deep_view() == trace_key(prev@, id@),
                find_key_idx(ig0, trace_key(prev@, id@), 0) == find_key_idx(
                    ig0,
                    trace_key(prev@, id@),
                    j as int,
                ),
            decreases n - j,
        {
            proof {
                assert(ig0[j as int] == (
                    self.ignore@[j as int].0.deep_view(),
                    self.ignore@[j as int].1,
                ));
            }
            if key_eq(&self.ignore[j].0, &key) {
                let prev_entry = self.ignore.remove(j);
                self.ignore.insert(j, (prev_entry.0, true));
                proof {
                    assert(self.ig() =~~= ig0.update(j as int, (trace_key(prev@, id@), true)));
                }
                return true;
            }
            j = j + 1;
        }
        false
    }

    /// The name the walk's current command is generated under: its configured
    /// new name, else its own id; a hit marks the entry used.
    pub fn get_cmd_name(&mut self, prev: &[Trace], id: &str) -> (r: String)
        ensures
            final(self).ig() == old(self).ig(),
            final(self).strict == old(self).strict,
            match find_key_idx(old(self).rn(), trace_key(prev@, id@), 0) {
                Some(j) => r@ == old(self).rn()[j].1.1 && final(self).rn() == old(self).rn()
                    .update(j, (trace_key(prev@, id@), (true, old(self).rn()[j].1.1))),
                None => r@ == id@ && final(self).rn() == old(self).rn(),
            },
    {
        let key = trace_to_key(prev, id);
        let ghost rn0 = self.rn();
        let n = self.rename_cmd.len();
        let mut j: usize = 0;
        while j < n
            invariant
                0 <= j <= n,
                n == self.rename_cmd@.len(),
                self.ignore@ == old(self).ignore@,
                self.rename_cmd@ == old(self).rename_cmd@,
                self.strict == old(self).strict,
                rn0 == rn_view(self.rename_cmd@),
                key.deep_view() == trace_key(prev@, id@),
                find_key_idx(rn0, trace_key(prev@, id@), 0) == find_key_idx(
                    rn0,
                    trace_key(prev@, id@),
                    j as int,
                ),
            decreases n - j,
        {
            proof {
                assert(rn0[j as int] == (
                    self.rename_cmd@[j as int].0.deep_view(),
                    (self.rename_cmd@[j as int].1.0, self.rename_cmd@[j as int].1.1@),
                ));
            }
            if key_eq(&self.rename_cmd[j].0, &key) {
                let prev_entry = self.rename_cmd.remove(j);
                let name = prev_entry.1.1;
                let out = name.clone();
                self.rename_cmd.insert(j, (prev_entry.0, (true, name)));
                proof {
                    assert(self.rn() =~~= rn0.update(
                        j as int,
                        (trace_key(prev@, id@), (true, rn0[j as int].1.1)),
                    ));
                }
                return out;
            }
            j = j + 1;
        }
        id.to_owned()
    }

    /// The ignore entries a run has not used.
    pub(crate) fn unprocessed_ignore(&self) -> (r: Vec<Vec<String>>)
        ensures
            r.deep_view() == unused_ig_keys(self.ig(), 0),
    {
        let mut out: Vec<Vec<String>> = Vec::new();
        let n = self.ignore.len();
        let mut j: usize = 0;
        proof {
            assert(out.deep_view() =~= Seq::<KeyModel>::empty());
        }
        while j < n
            invariant
                0 <= j <= n,
                n == self.ignore@.len(),
                out.deep_view() + unused_ig_keys(self.ig(), j as int) =~= unused_ig_keys(
                    self.ig(),
                    0,
                ),
            decreases n - j,
        {
            proof {
                assert(self.ig()[j as int] == (
                    self.ignore@[j as int].0.deep_view(),
                    self.ignore@[j as int].1,
                ));
            }
            if !self.ignore[j].1 {
                let ghost prev = out.deep_view();
                let copy = dup_key(&self.ignore[j].0);
                out.push(copy);
                proof {
                    assert(out.deep_view() =~= prev.push(self.ig()[j as int].0));
                }
            }
            j = j + 1;
        }
        out
    }

    /// The rename entries a run has not used.
    pub(crate) fn unprocessed_rename_cmd(&self) -> (r: Vec<Vec<String>>)
        ensures
            r.deep_view() == unused_keys(self.rn(), 0),
    {
        let mut out: Vec<Vec<String>> = Vec::new();
        let n = self.rename_cmd.len();
        let mut j: usize = 0;
        proof {
            assert(out.deep_view() =~= Seq::<KeyModel>::empty());
        }
        while j < n
            invariant
                0 <= j <= n,
                n == self.rename_cmd@.len(),
                out.deep_view() + unused_keys(self.rn(), j as int) =~= unused_keys(self.rn(), 0),
            decreases n - j,
        {
            proof {
                assert(self.rn()[j as int] == (
                    self.rename_cmd@[j as int].0.deep_view(),
                    (self.rename_cmd@[j as int].1.0, self.rename_cmd@[j as int].1.1@),
                ));
            }
            if !self.rename_cmd[j].1.0 {
                let ghost prev = out.deep_view();
                let copy = dup_key(&self.rename_cmd[j].0);
                out.push(copy);
                proof {
                    assert(out.deep_view() =~= prev.push(self.rn()[j as int].0));
                }
            }
            j = j + 1;
        }
        out
    }

    /// After a run: an error naming every configuration entry that matched
    /// nothing, if there is one.
    pub fn check_unprocessed_config(&self) -> (r: Result<(), GenerateError>)
        ensures
            unused_ig_keys(self.ig(), 0).len() + unused_keys(self.rn(), 0).len() == 0 ==> r
                is Ok,
            unused_ig_keys(self.ig(), 0).len() + unused_keys(self.rn(), 0).len() > 0 ==> (
            r matches Err(GenerateError::UnprocessedConfigObj(v)) && v.deep_view()
                == unused_ig_keys(self.ig(), 0) + unused_keys(self.rn(), 0)),
    {
        let mut all = self.unprocessed_ignore();
        let mut more = self.unprocessed_rename_cmd();
        let ghost a = all.deep_view();
        let ghost b = more.deep_view();
        all.append(&mut more);
        proof {
            assert(all.deep_view() =~= a + b);
        }
        if all.len() == 0 {
            return Ok(());
        }
        Err(GenerateError::UnprocessedConfigObj(all))
    }

    /// Whether generation treats questionable flag shapes as errors.
    pub fn strict(self, yes: bool) -> (r: Self)
        ensures
            r.ig() == self.ig(),
            r.rn() == self.rn(),
            r.strict == yes,
    {
        Config { strict: yes, ..self }
    }

    pub fn is_strict(&self) -> (r: bool)
        ensures
            r == self.strict,
    {
        self.strict
    }
}

impl Default for Config {
    fn default() -> (r: Self)
        ensures
            r.ig() == Seq::<(KeyModel, bool)>::empty(),
            r.rn() == Seq::<(KeyModel, (bool, Seq<char>))>::empty(),
            r.strict,
    {
        Config::new()
    }
}

/// An identifier path as an owned key.
fn to_key(ids: &[&str]) -> (r: Vec<String>)
    ensures
        r.deep_view() == ids.deep_view(),
{
    let mut out: Vec<String> = Vec::new();
    let n = ids.len();
    let mut j: usize = 0;
    while j < n
        invariant
            0 <= j <= n,
            n == ids@.len(),
            out@.len() == j,
            forall|k: int| 0 <= k < j ==> out@[k]@ == ids@[k]@,
        decreases n - j,
    {
        out.push(ids[j].to_owned());
        j = j + 1;
    }
    proof {
        assert(out.deep_view() =~= ids.deep_view());
    }
    out
}

/// The key a walk position is looked up by.
fn trace_to_key(prev: &[Trace], id: &str) -> (r: Vec<String>)
    ensures
        r.deep_view() == trace_key(prev@, id@),
{
    let mut out: Vec<String> = Vec::new();
    let n = prev.len();
    let mut j: usize = 0;
    while j < n
        invariant
            0 <= j <= n,
            n == prev@.len(),
            out@.len() == j,
            forall|k: int| 0 <= k < j ==> out@[k]@ == prev@[k].cmd_id@,
        decreases n - j,
    {
        out.push(prev[j].cmd_id.clone());
        j = j + 1;
    }
    out.push(id.to_owned());
    proof {
        assert(out.deep_view() =~= trace_key(prev@, id@));
    }
    out
}

/// Element-wise equality of two keys.
fn key_eq(a: &Vec<String>, b: &Vec<String>) -> (r: bool)
    ensures
        r == (a.deep_view() == b.deep_view()),
{
    let n = a.len();
    if n != b.len() {
        proof {
            assert(a.deep_view().len() == a@.len());
            assert(b.deep_view().len() == b@.len());
        }
        return false;
    }
    let mut i: usize = 0;
    while i < n
        invariant
            0 <= i <= n,
            n == a@.len(),
            n == b@.len(),
            forall|k: int| 0 <= k < i ==> a@[k]@ == b@[k]@,
        decreases n - i,
    {
        if !strutil::str_eq(a[i].as_str(), b[i].as_str()) {
            proof {
                assert(a.deep_view()[i as int] == a@[i as int]@);
                assert(b.deep_view()[i as int] == b@[i as int]@);
            }
            return false;
        }
        i = i + 1;
    }
    proof {
        assert(a.deep_view() =~= b.deep_view());
    }
    true
}

/// A copy of a key, string by string.
fn dup_key(k: &Vec<String>) -> (r: Vec<String>)
    ensures
        r.deep_view() == k.deep_view(),
{
    let mut out: Vec<String> = Vec::new();
    let n = k.len();
    let mut j: usize = 0;
    while j < n
        invariant
            0 <= j <= n,
            n == k@.len(),
            out@.len() == j,
            forall|m: int| 0 <= m < j ==> out@[m]@ == k@[m]@,
        decreases n - j,
    {
        out.push(k[j].clone());
        j = j + 1;
    }
    proof {
        assert(out.deep_view() =~= k.deep_view());
    }
    out
}

} // verus!

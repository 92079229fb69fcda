//! Completion candidates and the two-phase `Ready` / `Unready` result staging.
//!
//! A `Ready` value is a finished candidate list.  An `Unready` value describes
//! which id's value domain must be resolved by the embedding application and
//! how the answer is merged back in: every externally supplied candidate gets
//! the recorded prefix, and the pre-existing candidates are kept verbatim.

use vstd::prelude::*;

use crate::strutil;

verus! {

/// A single completion candidate.
#[derive(Debug)]
pub struct Completion {
    pub value: String,
    pub description: String,
    pub group: Option<&'static str>,
    pub always_match: bool,
}

/// Mathematical model of a candidate.
#[verifier::ext_equal]
pub struct CompModel {
    pub value: Seq<char>,
    pub description: Seq<char>,
    pub group: Option<Seq<char>>,
    pub always_match: bool,
}

impl View for Completion {
    type V = CompModel;

    open spec fn view(&self) -> CompModel {
        CompModel {
            value: self.value@,
            description: self.description@,
            group: match self.group {
                Some(g) => Some(g@),
                None => None,
            },
            always_match: self.always_match,
        }
    }
}

/// Model of a candidate list.
pub open spec fn comps_view(v: Seq<Completion>) -> Seq<CompModel> {
    v.map_values(|c: Completion| c@)
}

/// Each candidate with `prefix` prepended to its value.
pub open spec fn prefix_comps(prefix: Seq<char>, comps: Seq<CompModel>) -> Seq<CompModel> {
    comps.map_values(|c: CompModel| CompModel { value: prefix + c.value, ..c })
}

impl Completion {
    pub fn new(value: &str, description: &str) -> (r: Self)
        ensures
            r@ == (CompModel {
                value: value@,
                description: description@,
                group: None,
                always_match: false,
            }),
    {
        Completion {
            value: value.to_owned(),
            description: description.to_owned(),
            group: None,
            always_match: false,
        }
    }

    /// Replace the candidate's value by what `val` makes of it.
    pub fn value<F: FnOnce(&str) -> String>(self, val: F) -> (r: Self)
        requires
            forall|x: &str| x@ == self.value@ ==> #[trigger] call_requires(val, (x,)),
        ensures
            r@.description == self@.description,
            r@.group == self@.group,
            r@.always_match == self@.always_match,
            exists|x: &str, s: String|
                x@ == self@.value && #[trigger] call_ensures(val, (x,), s) && r@.value == s@,
    {
        let new_value = val(self.value.as_str());
        Completion {
            value: new_value,
            description: self.description,
            group: self.group,
            always_match: self.always_match,
        }
    }

    /// Mark this candidate as one that is always returned, whatever partial
    /// text it is filtered against.
    pub fn always_match(self) -> (r: Self)
        ensures
            r@ == (CompModel { always_match: true, ..self@ }),
    {
        Completion {
            value: self.value,
            description: self.description,
            group: self.group,
            always_match: true,
        }
    }

    pub fn group(self, group: &'static str) -> (r: Self)
        ensures
            r@ == (CompModel { group: Some(group@), ..self@ }),
    {
        Completion {
            value: self.value,
            description: self.description,
            group: Some(group),
            always_match: self.always_match,
        }
    }
}

/// Whether `p` occurs in `v` as a subsequence (in order, not necessarily
/// contiguous).
pub open spec fn is_subsequence(p: Seq<char>, v: Seq<char>) -> bool
    decreases v.len(),
{
    if p.len() == 0 {
        true
    } else if v.len() == 0 {
        false
    } else if p[0] == v[0] {
        is_subsequence(p.skip(1), v.skip(1))
    } else {
        is_subsequence(p, v.skip(1))
    }
}

/// Skipping characters of `v` that do not match `p`'s first character does
/// not change whether `p` is a subsequence of the rest.
proof fn lemma_subseq_skip_nonmatching(p: Seq<char>, v: Seq<char>, i: int, i2: int)
    requires
        0 <= i <= i2 <= v.len(),
        p.len() > 0,
        forall|k: int| i <= k < i2 ==> v[k] != p[0],
    ensures
        is_subsequence(p, v.skip(i)) == is_subsequence(p, v.skip(i2)),
    decreases i2 - i,
{
    if i < i2 {
        assert(v.skip(i)[0] == v[i]);
        assert(v.skip(i).skip(1) =~= v.skip(i + 1));
        lemma_subseq_skip_nonmatching(p, v, i + 1, i2);
    }
}

/// First position at or after `from` where `value` has the character `pc`.
fn scan_to(value: &str, from: usize, pc: char) -> (r: usize)
    requires
        from <= value@.len(),
    ensures
        from <= r <= value@.len(),
        forall|k: int| from <= k < r ==> value@[k] != pc,
        r < value@.len() ==> value@[r as int] == pc,
{
    let n = value.unicode_len();
    let mut i = from;
    while i < n
        invariant
            from <= i <= n,
            n == value@.len(),
            forall|k: int| from <= k < i ==> value@[k] != pc,
        decreases n - i,
    {
        if value.get_char(i) == pc {
            return i;
        }
        i = i + 1;
    }
    i
}

/// Subsequence ("fuzzy") match of `pattern` against `value`.
pub fn naive_fuzzy(value: &str, pattern: &str) -> (r: bool)
    ensures
        r == is_subsequence(pattern@, value@),
{
    let np = pattern.unicode_len();
    let nv = value.unicode_len();
    let mut i: usize = 0;
    let mut j: usize = 0;
    proof {
        assert(pattern@.skip(0) =~= pattern@);
        assert(value@.skip(0) =~= value@);
    }
    while j < np
        invariant
            0 <= i <= nv,
            0 <= j <= np,
            nv == value@.len(),
            np == pattern@.len(),
            is_subsequence(pattern@, value@) == is_subsequence(
                pattern@.skip(j as int),
                value@.skip(i as int),
            ),
        decreases np - j,
    {
        let pc = pattern.get_char(j);
        let i2 = scan_to(value, i, pc);
        proof {
            assert(pattern@.skip(j as int)[0] == pattern@[j as int]);
            lemma_subseq_skip_nonmatching(
                pattern@.skip(j as int),
                value@,
                i as int,
                i2 as int,
            );
        }
        if i2 == nv {
            proof {
                assert(value@.skip(i2 as int).len() == 0);
                assert(pattern@.skip(j as int).len() > 0);
            }
            return false;
        }
        proof {
            assert(value@.skip(i2 as int)[0] == value@[i2 as int]);
            assert(pattern@.skip(j as int).skip(1) =~= pattern@.skip(j as int + 1));
            assert(value@.skip(i2 as int).skip(1) =~= value@.skip(i2 as int + 1));
        }
        i = i2 + 1;
        j = j + 1;
    }
    proof {
        assert(pattern@.skip(j as int).len() == 0);
    }
    true
}

/// The finished candidate list for the final token.
#[derive(Debug)]
pub struct Ready {
    pub arg: String,
    pub comps: Vec<Completion>,
}

/// Model of a finished result: the partial text and the candidates.
#[verifier::ext_equal]
pub struct ReadyModel {
    pub arg: Seq<char>,
    pub comps: Seq<CompModel>,
}

impl View for Ready {
    type V = ReadyModel;

    open spec fn view(&self) -> ReadyModel {
        ReadyModel { arg: self.arg@, comps: comps_view(self.comps@) }
    }
}

impl Ready {
    pub fn inner(&self) -> (r: (&[Completion], &str))
        ensures
            comps_view(r.0@) == self@.comps,
            r.1@ == self@.arg,
    {
        (self.comps.as_slice(), self.arg.as_str())
    }

    pub fn into_inner(self) -> (r: (Vec<Completion>, String))
        ensures
            comps_view(r.0@) == self@.comps,
            r.1@ == self@.arg,
    {
        (self.comps, self.arg)
    }
}

/// A handback: candidates that cannot be finished without the embedding
/// application resolving a value domain.
#[derive(Debug)]
pub struct Unready {
    pub arg: String,
    pub preexist: Vec<Completion>,
    pub prefix: String,
}

/// Model of a handback.
#[verifier::ext_equal]
pub struct UnreadyModel {
    pub arg: Seq<char>,
    pub preexist: Seq<CompModel>,
    pub prefix: Seq<char>,
}

impl View for Unready {
    type V = UnreadyModel;

    open spec fn view(&self) -> UnreadyModel {
        UnreadyModel {
            arg: self.arg@,
            preexist: comps_view(self.preexist@),
            prefix: self.prefix@,
        }
    }
}

impl Unready {
    pub(crate) fn new(prefix: String, arg: String) -> (r: Self)
        ensures
            r@ == (UnreadyModel { arg: arg@, preexist: Seq::empty(), prefix: prefix@ }),
    {
        let r = Unready { prefix, arg, preexist: Vec::new() };
        proof {
            assert(comps_view(r.preexist@) =~= Seq::<CompModel>::empty());
        }
        r
    }

    pub(crate) fn preexist(self, preexist: Vec<Completion>) -> (r: Self)
        ensures
            r@ == (UnreadyModel { preexist: comps_view(preexist@), ..self@ }),
    {
        Unready { preexist, ..self }
    }

    /// Finish this handback: the pre-existing candidates verbatim, then every
    /// supplied candidate with the prefix prepended.
    pub fn to_ready(self, comps: Vec<Completion>) -> (r: Ready)
        ensures
            r@.arg == self@.arg,
            r@.comps == self@.preexist + prefix_comps(self@.prefix, comps_view(comps@)),
    {
        let ghost self0 = self;
        let ghost comps0 = comps@;
        let Unready { arg, preexist, prefix } = self;
        let mut out = preexist;
        let ghost n_pre = out@.len();
        let mut rest = comps;
        let mut k: usize = 0;
        let n = rest.len();
        while k < n
            invariant
                0 <= k <= n,
                n == rest@.len(),
                rest@ == comps0,
                prefix@ == self0.prefix@,
                n_pre == self0.preexist@.len(),
                out@.len() == n_pre + k,
                comps_view(out@) == comps_view(self0.preexist@) + prefix_comps(
                    self0.prefix@,
                    comps_view(comps0),
                ).take(k as int),
            decreases n - k,
        {
            let c = &rest[k];
            let mut nv = prefix.clone();
            nv.append(c.value.as_str());
            let nc = Completion {
                value: nv,
                description: c.description.clone(),
                group: c.group,
                always_match: c.always_match,
            };
            let ghost out_prev = out@;
            out.push(nc);
            proof {
                let pc = prefix_comps(self0.prefix@, comps_view(comps0));
                assert(comps_view(comps0)[k as int] == comps0[k as int]@);
                assert(nc@ =~= pc[k as int]);
                assert(comps_view(out@) =~= comps_view(out_prev).push(nc@));
                assert(pc.take(k as int + 1) =~= pc.take(k as int).push(pc[k as int]));
                assert(comps_view(out@) =~= comps_view(self0.preexist@) + pc.take(
                    k as int + 1,
                ));
            }
            k = k + 1;
        }
        let r = Ready { arg, comps: out };
        proof {
            assert(prefix_comps(self0.prefix@, comps_view(comps0)).take(n as int)
                =~= prefix_comps(self0.prefix@, comps_view(comps0)));
        }
        r
    }

    pub(crate) fn to_ready_grp(self, comps: Vec<Completion>) -> (r: CompletionGroup)
        ensures
            (r matches CompletionGroup::Ready(ready) && ready@.arg == self@.arg && ready@.comps
                == self@.preexist + prefix_comps(self@.prefix, comps_view(comps@))),
    {
        let ready = self.to_ready(comps);
        CompletionGroup::Ready(ready)
    }
}

/// The result of one completion request: finished, or a handback keyed on the
/// id whose value domain the embedding application must resolve.
#[derive(Debug)]
pub enum CompletionGroup {
    Ready(Ready),
    Unready { unready: Unready, id: u32, value: String },
}

/// Model of a result.
#[verifier::ext_equal]
pub enum GroupModel {
    Ready(ReadyModel),
    Unready { unready: UnreadyModel, id: u32, value: Seq<char> },
}

impl View for CompletionGroup {
    type V = GroupModel;

    open spec fn view(&self) -> GroupModel {
        match self {
            CompletionGroup::Ready(r) => GroupModel::Ready(r@),
            CompletionGroup::Unready { unready, id, value } => GroupModel::Unready {
                unready: unready@,
                id: *id,
                value: value@,
            },
        }
    }
}

impl CompletionGroup {
    pub(crate) fn new_ready(comps: Vec<Completion>, arg: String) -> (r: Self)
        ensures
            r@ == GroupModel::Ready(ReadyModel { arg: arg@, comps: comps_view(comps@) }),
    {
        CompletionGroup::Ready(Ready { comps, arg })
    }

    pub(crate) fn new_unready(id: u32, prefix: String, arg: String, value: Option<String>) -> (r:
        Self)
        ensures
            r@ == (GroupModel::Unready {
                unready: UnreadyModel { arg: arg@, preexist: Seq::empty(), prefix: prefix@ },
                id,
                value: match value {
                    Some(v) => v@,
                    None => arg@,
                },
            }),
    {
        let value = match value {
            Some(v) => v,
            None => arg.clone(),
        };
        CompletionGroup::Unready { unready: Unready::new(prefix, arg), id, value }
    }
}

/// The shell dialects a `Ready` can be rendered for.
#[derive(Clone, Copy, Eq, PartialEq, Structural, Debug)]
pub enum Shell {
    Zsh,
    Fish,
    Bash,
}

impl std::str::FromStr for Shell {
    type Err = String;

    fn from_str(s: &str) -> Result<Self, String> {
        if strutil::str_eq(s, "zsh") {
            Ok(Shell::Zsh)
        } else if strutil::str_eq(s, "fish") {
            Ok(Shell::Fish)
        } else if strutil::str_eq(s, "bash") {
            Ok(Shell::Bash)
        } else {
            Err("unknown shell name".to_owned())
        }
    }
}

} // verus!

verus! {

/// Whether a candidate survives client-side filtering against the partial
/// text: bash keeps literal prefix matches, the other shells keep always-match
/// candidates and subsequence matches.
pub open spec fn comp_keep(shell: Shell, arg: Seq<char>, c: CompModel) -> bool {
    match shell {
        Shell::Bash => c.value.len() >= arg.len() && c.value.take(arg.len() as int) == arg,
        _ => c.always_match || is_subsequence(arg, c.value),
    }
}

/// The candidates that survive filtering, in order.
pub open spec fn filtered_comps(
    shell: Shell,
    arg: Seq<char>,
    comps: Seq<CompModel>,
    i: int,
) -> Seq<CompModel>
    decreases comps.len() - i,
{
    if i < 0 || i >= comps.len() {
        Seq::empty()
    } else if comp_keep(shell, arg, comps[i]) {
        seq![comps[i]] + filtered_comps(shell, arg, comps, i + 1)
    } else {
        filtered_comps(shell, arg, comps, i + 1)
    }
}

/// Bash output: one line per candidate, values only.
pub open spec fn bash_render(comps: Seq<CompModel>, i: int) -> Seq<char>
    decreases comps.len() - i,
{
    if i < 0 || i >= comps.len() {
        Seq::empty()
    } else {
        comps[i].value + seq!['\n'] + bash_render(comps, i + 1)
    }
}

/// The description a fish line shows: the candidate's own, else its group.
pub open spec fn fish_desc(c: CompModel) -> Seq<char> {
    if c.description.len() > 0 {
        c.description
    } else {
        match c.group {
            Some(g) => g,
            None => Seq::empty(),
        }
    }
}

/// Fish output: one tab-separated value and description per line.
pub open spec fn fish_render(comps: Seq<CompModel>, i: int) -> Seq<char>
    decreases comps.len() - i,
{
    if i < 0 || i >= comps.len() {
        Seq::empty()
    } else {
        comps[i].value + seq!['\t'] + fish_desc(comps[i]) + seq!['\n'] + fish_render(
            comps,
            i + 1,
        )
    }
}

/// Model of a list of borrowed candidates.
pub open spec fn ref_comps_view(v: Seq<&Completion>) -> Seq<CompModel> {
    v.map_values(|c: &Completion| c@)
}

impl Ready {
    /// The candidates that survive filtering against the partial text.
    fn kept<'a>(&'a self, shell: Shell) -> (r: Vec<&'a Completion>)
        ensures
            ref_comps_view(r@) == filtered_comps(shell, self@.arg, self@.comps, 0),
    {
        let mut out: Vec<&Completion> = Vec::new();
        let n = self.comps.len();
        let la = self.arg.as_str().unicode_len();
        let mut i: usize = 0;
        proof {
            assert(ref_comps_view(out@) =~= Seq::<CompModel>::empty());
        }
        while i < n
            invariant
                0 <= i <= n,
                n == self.comps@.len(),
                la == self.arg@.len(),
                ref_comps_view(out@) + filtered_comps(shell, self@.arg, self@.comps, i as int)
                    =~= filtered_comps(shell, self@.arg, self@.comps, 0),
            decreases n - i,
        {
            let c = &self.comps[i];
            let keep: bool = match shell {
                Shell::Bash => {
                    let lv = c.value.as_str().unicode_len();
                    lv >= la && crate::strutil::str_eq(
                        c.value.as_str().substring_char(0, la),
                        self.arg.as_str(),
                    )
                },
                _ => c.always_match || naive_fuzzy(c.value.as_str(), self.arg.as_str()),
            };
            proof {
                assert(comps_view(self.comps@)[i as int] == self.comps@[i as int]@);
                assert(keep == comp_keep(shell, self@.arg, self@.comps[i as int]));
            }
            if keep {
                let ghost prev = out@;
                out.push(c);
                proof {
                    assert(ref_comps_view(out@) =~= ref_comps_view(prev).push(
                        self.comps@[i as int]@,
                    ));
                }
            }
            i = i + 1;
        }
        out
    }
}

} // verus!

verus! {

/// The zsh group a candidate belongs to.
pub open spec fn gname(c: CompModel) -> Seq<char> {
    match c.group {
        Some(g) => g,
        None => "option"@,
    }
}

/// A name list extended by one name, keeping first-occurrence order.
pub open spec fn add_name(names: Seq<Seq<char>>, n: Seq<char>) -> Seq<Seq<char>> {
    if names.contains(n) {
        names
    } else {
        names.push(n)
    }
}

/// The group names of a candidate list, in first-occurrence order.
pub open spec fn collect_names(comps: Seq<CompModel>, i: int, acc: Seq<Seq<char>>) -> Seq<
    Seq<char>,
>
    decreases comps.len() - i,
{
    if i < 0 || i >= comps.len() {
        acc
    } else {
        collect_names(comps, i + 1, add_name(acc, gname(comps[i])))
    }
}

/// How many candidates belong to a group.
pub open spec fn count_in(comps: Seq<CompModel>, name: Seq<char>, i: int) -> int
    decreases comps.len() - i,
{
    if i < 0 || i >= comps.len() {
        0
    } else {
        (if gname(comps[i]) == name {
            1int
        } else {
            0int
        }) + count_in(comps, name, i + 1)
    }
}

/// Strict lexicographic order on names.
pub open spec fn lex_lt(a: Seq<char>, b: Seq<char>) -> bool
    decreases a.len() + b.len(),
{
    if b.len() == 0 {
        false
    } else if a.len() == 0 {
        true
    } else if a[0] != b[0] {
        (a[0] as int) < (b[0] as int)
    } else {
        lex_lt(a.skip(1), b.skip(1))
    }
}

/// Group order: fewer members first; ties broken by name.
pub open spec fn key_lt(comps: Seq<CompModel>, a: Seq<char>, b: Seq<char>) -> bool {
    count_in(comps, a, 0) < count_in(comps, b, 0) || (count_in(comps, a, 0) == count_in(
        comps,
        b,
        0,
    ) && lex_lt(a, b))
}

/// A name inserted into a sorted name list, after everything it does not
/// strictly precede.
pub open spec fn insert_name(comps: Seq<CompModel>, sorted: Seq<Seq<char>>, n: Seq<char>) -> Seq<
    Seq<char>,
>
    decreases sorted.len(),
{
    if sorted.len() == 0 {
        seq![n]
    } else if key_lt(comps, n, sorted[0]) {
        seq![n] + sorted
    } else {
        seq![sorted[0]] + insert_name(comps, sorted.skip(1), n)
    }
}

/// The names sorted by group order, by repeated insertion.
pub open spec fn sort_names(
    comps: Seq<CompModel>,
    names: Seq<Seq<char>>,
    i: int,
    acc: Seq<Seq<char>>,
) -> Seq<Seq<char>>
    decreases names.len() - i,
{
    if i < 0 || i >= names.len() {
        acc
    } else {
        sort_names(comps, names, i + 1, insert_name(comps, acc, names[i]))
    }
}

/// The zsh lines of one group's members, in candidate order.
pub open spec fn zsh_group_lines(comps: Seq<CompModel>, name: Seq<char>, i: int) -> Seq<char>
    decreases comps.len() - i,
{
    if i < 0 || i >= comps.len() {
        Seq::empty()
    } else {
        (if gname(comps[i]) == name {
            let c = comps[i];
            seq!['\t'] + c.value + seq!['\t'] + c.value + (if c.description.len() > 0 {
                seq![' ', '-', '-', ' '] + c.description
            } else {
                Seq::<char>::empty()
            }) + seq!['\n']
        } else {
            Seq::<char>::empty()
        }) + zsh_group_lines(comps, name, i + 1)
    }
}

/// The zsh output for the sorted groups, terminated by the literal `END`.
pub open spec fn zsh_render_names(comps: Seq<CompModel>, sorted: Seq<Seq<char>>, i: int) -> Seq<
    char,
>
    decreases sorted.len() - i,
{
    if i < 0 || i >= sorted.len() {
        seq!['E', 'N', 'D', '\n']
    } else {
        sorted[i] + seq!['\n'] + zsh_group_lines(comps, sorted[i], 0) + zsh_render_names(
            comps,
            sorted,
            i + 1,
        )
    }
}

/// The zsh output: groups sorted by (size, name), each a header line and its
/// member lines.
pub open spec fn zsh_render(comps: Seq<CompModel>) -> Seq<char> {
    zsh_render_names(
        comps,
        sort_names(comps, collect_names(comps, 0, Seq::empty()), 0, Seq::empty()),
        0,
    )
}

/// What `print` writes: the filtered candidates rendered for the shell.
pub open spec fn render_spec(shell: Shell, rm: ReadyModel) -> Seq<char> {
    let f = filtered_comps(shell, rm.arg, rm.comps, 0);
    match shell {
        Shell::Bash => bash_render(f, 0),
        Shell::Fish => fish_render(f, 0),
        Shell::Zsh => zsh_render(f),
    }
}

/// The zsh group a candidate belongs to, as a fresh string.
fn gname_exec(c: &Completion) -> (r: String)
    ensures
        r@ == gname(c@),
{
    match c.group {
        Some(g) => g.to_owned(),
        None => "option".to_owned(),
    }
}

/// How many of the candidates belong to a group.
fn count_in_exec(kept: &Vec<&Completion>, name: &str) -> (r: usize)
    ensures
        r == count_in(ref_comps_view(kept@), name@, 0),
{
    let ghost comps = ref_comps_view(kept@);
    let n = kept.len();
    let mut i: usize = 0;
    let mut count: usize = 0;
    proof {
        lemma_count_in_bounds(comps, name@, 0);
    }
    while i < n
        invariant
            0 <= i <= n,
            n == kept@.len(),
            comps == ref_comps_view(kept@),
            count + count_in(comps, name@, i as int) == count_in(comps, name@, 0),
            count <= i,
        decreases n - i,
    {
        proof {
            assert(comps[i as int] == kept@[i as int]@);
            lemma_count_in_bounds(comps, name@, i as int + 1);
        }
        let g = gname_exec(kept[i]);
        if crate::strutil::str_eq(g.as_str(), name) {
            count = count + 1;
        }
        i = i + 1;
    }
    count
}

/// A group's member count is at most the number of candidates past `i`.
proof fn lemma_count_in_bounds(comps: Seq<CompModel>, name: Seq<char>, i: int)
    requires
        0 <= i <= comps.len(),
    ensures
        0 <= count_in(comps, name, i) <= comps.len() - i,
    decreases comps.len() - i,
{
    if i < comps.len() {
        lemma_count_in_bounds(comps, name, i + 1);
    }
}

/// Strict lexicographic comparison of two names.
fn lex_lt_exec(a: &str, b: &str) -> (r: bool)
    ensures
        r == lex_lt(a@, b@),
{
    let na = a.unicode_len();
    let nb = b.unicode_len();
    let mut i: usize = 0;
    proof {
        assert(a@.skip(0) =~= a@);
        assert(b@.skip(0) =~= b@);
    }
    while i < na && i < nb
        invariant
            0 <= i,
            i <= na,
            i <= nb,
            na == a@.len(),
            nb == b@.len(),
            forall|k: int| 0 <= k < i ==> a@[k] == b@[k],
            lex_lt(a@, b@) == lex_lt(a@.skip(i as int), b@.skip(i as int)),
        decreases na - i,
    {
        let ca = a.get_char(i);
        let cb = b.get_char(i);
        proof {
            assert(a@.skip(i as int)[0] == a@[i as int]);
            assert(b@.skip(i as int)[0] == b@[i as int]);
            assert(a@.skip(i as int).skip(1) =~= a@.skip(i as int + 1));
            assert(b@.skip(i as int).skip(1) =~= b@.skip(i as int + 1));
        }
        if ca != cb {
            return (ca as u32) < (cb as u32);
        }
        i = i + 1;
    }
    proof {
        if i >= na {
            assert(a@.skip(i as int).len() == 0);
        } else {
            assert(b@.skip(i as int).len() == 0);
        }
    }
    i >= na && i < nb
}

} // verus!

verus! {

/// Model of a name list.
pub open spec fn names_view(v: Seq<String>) -> Seq<Seq<char>> {
    v.map_values(|s: String| s@)
}

/// Whether a name is already listed.
fn names_contains(v: &Vec<String>, s: &str) -> (r: bool)
    ensures
        r == names_view(v@).contains(s@),
{
    let n = v.len();
    let mut i: usize = 0;
    while i < n
        invariant
            0 <= i <= n,
            n == v@.len(),
            forall|k: int| 0 <= k < i ==> names_view(v@)[k] != s@,
        decreases n - i,
    {
        proof {
            assert(names_view(v@)[i as int] == v@[i as int]@);
        }
        if crate::strutil::str_eq(v[i].as_str(), s) {
            proof {
                assert(names_view(v@)[i as int] == s@);
            }
            return true;
        }
        i = i + 1;
    }
    proof {
        assert forall|k: int| 0 <= k < names_view(v@).len() implies names_view(v@)[k] != s@ by {}
    }
    false
}

/// The group names of the kept candidates, in first-occurrence order.
fn collect_names_exec(kept: &Vec<&Completion>) -> (r: Vec<String>)
    ensures
        names_view(r@) == collect_names(ref_comps_view(kept@), 0, Seq::empty()),
{
    let ghost comps = ref_comps_view(kept@);
    let mut out: Vec<String> = Vec::new();
    let n = kept.len();
    let mut i: usize = 0;
    proof {
        assert(names_view(out@) =~= Seq::<Seq<char>>::empty());
    }
    while i < n
        invariant
            0 <= i <= n,
            n == kept@.len(),
            comps == ref_comps_view(kept@),
            collect_names(comps, 0, Seq::empty()) == collect_names(
                comps,
                i as int,
                names_view(out@),
            ),
        decreases n - i,
    {
        proof {
            assert(comps[i as int] == kept@[i as int]@);
        }
        let g = gname_exec(kept[i]);
        let ghost prev = out@;
        if !names_contains(&out, g.as_str()) {
            out.push(g);
            proof {
                assert(names_view(out@) =~= names_view(prev).push(gname(comps[i as int])));
                assert(names_view(out@) =~= add_name(names_view(prev), gname(comps[i as int])));
            }
        } else {
            proof {
                assert(names_view(out@) =~= add_name(names_view(prev), gname(comps[i as int])));
            }
        }
        i = i + 1;
    }
    out
}

} // verus!

verus! {

/// Inserting at the first position the new name strictly precedes matches
/// the recursive insertion.
proof fn lemma_insert_name_at(comps: Seq<CompModel>, sorted: Seq<Seq<char>>, n: Seq<char>, j: int)
    requires
        0 <= j <= sorted.len(),
        forall|m: int| 0 <= m < j ==> !key_lt(comps, n, #[trigger] sorted[m]),
        j < sorted.len() ==> key_lt(comps, n, sorted[j]),
    ensures
        insert_name(comps, sorted, n) == sorted.take(j) + seq![n] + sorted.skip(j),
    decreases sorted.len(),
{
    if sorted.len() == 0 {
        assert(sorted.take(0) + seq![n] + sorted.skip(0) =~= seq![n]);
    } else if key_lt(comps, n, sorted[0]) {
        assert(j == 0);
        assert(sorted.take(0) + seq![n] + sorted.skip(0) =~= seq![n] + sorted);
    } else {
        assert(j >= 1);
        let tail = sorted.skip(1);
        assert forall|m: int| 0 <= m < j - 1 implies !key_lt(comps, n, #[trigger] tail[m]) by {
            assert(tail[m] == sorted[m + 1]);
        }
        assert(j - 1 < tail.len() ==> key_lt(comps, n, tail[j - 1]));
        lemma_insert_name_at(comps, tail, n, j - 1);
        assert(seq![sorted[0]] + (tail.take(j - 1) + seq![n] + tail.skip(j - 1)) =~= sorted.take(
            j,
        ) + seq![n] + sorted.skip(j));
    }
}

/// The position a new name is inserted at: the first place it strictly
/// precedes.
fn find_insert_pos(kept: &Vec<&Completion>, sorted: &Vec<String>, name: &str) -> (j: usize)
    ensures
        j <= sorted@.len(),
        forall|m: int|
            0 <= m < j ==> !key_lt(ref_comps_view(kept@), name@, #[trigger] names_view(
                sorted@,
            )[m]),
        j < sorted@.len() ==> key_lt(ref_comps_view(kept@), name@, names_view(sorted@)[j as int]),
{
    let ghost comps = ref_comps_view(kept@);
    let cnt_name = count_in_exec(kept, name);
    let n = sorted.len();
    let mut j: usize = 0;
    while j < n
        invariant
            0 <= j <= n,
            n == sorted@.len(),
            comps == ref_comps_view(kept@),
            cnt_name == count_in(comps, name@, 0),
            forall|m: int| 0 <= m < j ==> !key_lt(comps, name@, #[trigger] names_view(sorted@)[m]),
        decreases n - j,
    {
        proof {
            assert(names_view(sorted@)[j as int] == sorted@[j as int]@);
        }
        let cnt_j = count_in_exec(kept, sorted[j].as_str());
        let lt = cnt_name < cnt_j || (cnt_name == cnt_j && lex_lt_exec(name, sorted[j].as_str()));
        if lt {
            return j;
        }
        j = j + 1;
    }
    n
}

/// The names sorted by group order.
fn sort_names_exec(kept: &Vec<&Completion>, names: Vec<String>) -> (r: Vec<String>)
    ensures
        names_view(r@) == sort_names(
            ref_comps_view(kept@),
            names_view(names@),
            0,
            Seq::empty(),
        ),
{
    let ghost comps = ref_comps_view(kept@);
    let ghost names0 = names_view(names@);
    let mut sorted: Vec<String> = Vec::new();
    let n = names.len();
    let mut i: usize = 0;
    proof {
        assert(names_view(sorted@) =~= Seq::<Seq<char>>::empty());
    }
    while i < n
        invariant
            0 <= i <= n,
            n == names@.len(),
            comps == ref_comps_view(kept@),
            names0 == names_view(names@),
            sort_names(comps, names0, 0, Seq::empty()) == sort_names(
                comps,
                names0,
                i as int,
                names_view(sorted@),
            ),
        decreases n - i,
    {
        proof {
            assert(names0[i as int] == names@[i as int]@);
        }
        let name = names[i].clone();
        let j = find_insert_pos(kept, &sorted, name.as_str());
        let ghost prev = names_view(sorted@);
        sorted.insert(j, name);
        proof {
            lemma_insert_name_at(comps, prev, names0[i as int], j as int);
            assert(names_view(sorted@) =~= prev.take(j as int) + seq![names0[i as int]]
                + prev.skip(j as int));
        }
        i = i + 1;
    }
    sorted
}

} // verus!

verus! {

/// Append one group's member lines to the output.
fn zsh_lines_for(kept: &Vec<&Completion>, name: &str, out: &mut String)
    ensures
        final(out)@ == old(out)@ + zsh_group_lines(ref_comps_view(kept@), name@, 0),
{
    let ghost comps = ref_comps_view(kept@);
    let ghost out0 = old(out)@;
    let n = kept.len();
    let mut i: usize = 0;
    proof {
        assert(out@ + zsh_group_lines(comps, name@, 0) =~= out0 + zsh_group_lines(
            comps,
            name@,
            0,
        ));
    }
    while i < n
        invariant
            0 <= i <= n,
            n == kept@.len(),
            comps == ref_comps_view(kept@),
            out@ + zsh_group_lines(comps, name@, i as int) == out0 + zsh_group_lines(
                comps,
                name@,
                0,
            ),
        decreases n - i,
    {
        proof {
            assert(comps[i as int] == kept@[i as int]@);
        }
        let c = kept[i];
        let g = gname_exec(c);
        let ghost out_pre = out@;
        if crate::strutil::str_eq(g.as_str(), name) {
            crate::strutil::push_char(out, '\t');
            out.append(c.value.as_str());
            crate::strutil::push_char(out, '\t');
            out.append(c.value.as_str());
            if !c.description.as_str().is_empty() {
                out.append(" -- ");
                out.append(c.description.as_str());
                proof {
                    reveal_strlit(" -- ");
                    assert((" -- ")@ =~= seq![' ', '-', '-', ' ']);
                }
            }
            crate::strutil::push_char(out, '\n');
        }
        proof {
            let line = if gname(comps[i as int]) == name@ {
                let cm = comps[i as int];
                seq!['\t'] + cm.value + seq!['\t'] + cm.value + (if cm.description.len() > 0 {
                    seq![' ', '-', '-', ' '] + cm.description
                } else {
                    Seq::<char>::empty()
                }) + seq!['\n']
            } else {
                Seq::<char>::empty()
            };
            assert(out@ =~= out_pre + line);
            assert(zsh_group_lines(comps, name@, i as int) == line + zsh_group_lines(
                comps,
                name@,
                i as int + 1,
            ));
            assert(out@ + zsh_group_lines(comps, name@, i as int + 1) =~= out0
                + zsh_group_lines(comps, name@, 0));
        }
        i = i + 1;
    }
    proof {
        assert(zsh_group_lines(comps, name@, n as int) =~= Seq::<char>::empty());
        assert(out@ =~= out@ + zsh_group_lines(comps, name@, n as int));
    }
}

impl Ready {
    /// The completion output for one shell, as the text a completion script
    /// reads: the candidates are filtered against the partial text and
    /// rendered line by line (zsh additionally groups them).
    pub fn print(&self, shell: Shell) -> (r: String)
        ensures
            r@ == render_spec(shell, self@),
    {
        let kept = self.kept(shell);
        let ghost f = filtered_comps(shell, self@.arg, self@.comps, 0);
        let mut out = String::new();
        match shell {
            Shell::Bash => {
                let n = kept.len();
                let mut i: usize = 0;
                while i < n
                    invariant
                        0 <= i <= n,
                        n == kept@.len(),
                        f == ref_comps_view(kept@),
                        out@ + bash_render(f, i as int) == bash_render(f, 0),
                    decreases n - i,
                {
                    proof {
                        assert(f[i as int] == kept@[i as int]@);
                    }
                    let ghost out_pre = out@;
                    out.append(kept[i].value.as_str());
                    crate::strutil::push_char(&mut out, '\n');
                    proof {
                        assert(out@ =~= out_pre + (f[i as int].value + seq!['\n']));
                        assert(out@ + bash_render(f, i as int + 1) =~= out_pre + bash_render(
                            f,
                            i as int,
                        ));
                    }
                    i = i + 1;
                }
                proof {
                    assert(bash_render(f, n as int) =~= Seq::<char>::empty());
                    assert(out@ =~= out@ + bash_render(f, n as int));
                }
            },
            Shell::Fish => {
                let n = kept.len();
                let mut i: usize = 0;
                while i < n
                    invariant
                        0 <= i <= n,
                        n == kept@.len(),
                        f == ref_comps_view(kept@),
                        out@ + fish_render(f, i as int) == fish_render(f, 0),
                    decreases n - i,
                {
                    proof {
                        assert(f[i as int] == kept@[i as int]@);
                    }
                    let c = kept[i];
                    let ghost out_pre = out@;
                    out.append(c.value.as_str());
                    crate::strutil::push_char(&mut out, '\t');
                    if !c.description.as_str().is_empty() {
                        out.append(c.description.as_str());
                    } else {
                        match c.group {
                            Some(g) => {
                                out.append(g);
                            },
                            None => {},
                        }
                    }
                    crate::strutil::push_char(&mut out, '\n');
                    proof {
                        assert(out@ =~= out_pre + (f[i as int].value + seq!['\t'] + fish_desc(
                            f[i as int],
                        ) + seq!['\n']));
                        assert(out@ + fish_render(f, i as int + 1) =~= out_pre + fish_render(
                            f,
                            i as int,
                        ));
                    }
                    i = i + 1;
                }
                proof {
                    assert(fish_render(f, n as int) =~= Seq::<char>::empty());
                    assert(out@ =~= out@ + fish_render(f, n as int));
                }
            },
            Shell::Zsh => {
                let names = collect_names_exec(&kept);
                let sorted = sort_names_exec(&kept, names);
                let ghost sn = names_view(sorted@);
                let n = sorted.len();
                let mut i: usize = 0;
                while i < n
                    invariant
                        0 <= i <= n,
                        n == sorted@.len(),
                        f == ref_comps_view(kept@),
                        sn == names_view(sorted@),
                        out@ + zsh_render_names(f, sn, i as int) == zsh_render_names(f, sn, 0),
                    decreases n - i,
                {
                    proof {
                        assert(sn[i as int] == sorted@[i as int]@);
                    }
                    let ghost out_pre = out@;
                    out.append(sorted[i].as_str());
                    crate::strutil::push_char(&mut out, '\n');
                    zsh_lines_for(&kept, sorted[i].as_str(), &mut out);
                    proof {
                        assert(out@ =~= out_pre + (sn[i as int] + seq!['\n'] + zsh_group_lines(
                            f,
                            sn[i as int],
                            0,
                        )));
                        assert(out@ + zsh_render_names(f, sn, i as int + 1) =~= out_pre
                            + zsh_render_names(f, sn, i as int));
                    }
                    i = i + 1;
                }
                out.append("END");
                crate::strutil::push_char(&mut out, '\n');
                proof {
                    reveal_strlit("END");
                    assert(("END")@ =~= seq!['E', 'N', 'D']);
                    assert(zsh_render_names(f, sn, n as int) =~= seq!['E', 'N', 'D', '\n']);
                    assert(out@ =~= zsh_render_names(f, sn, 0));
                }
            },
        }
        out
    }
}

} // verus!

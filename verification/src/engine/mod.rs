//! The schema model (commands, flags, positional arguments) and the central
//! recursive algorithm that turns a token sequence into completions.

pub mod flag;
pub mod flag_type;

pub use flag::CompleteWithEqual;
pub use flag::Flag;

use vstd::prelude::*;

use crate::arg_context::{ctx_has_seen, ctx_next, ArgsContext};
use crate::completion::{
    comps_view, prefix_comps, CompModel, Completion, CompletionGroup, GroupModel, ReadyModel,
    Unready, UnreadyModel,
};
use crate::error::{ErrModel, Error};
use crate::history::{HUnit, History};
use crate::id;
use crate::parsed_flag::{classify, find_eq, scan_valid, ParsedFlag, TokenShape};

use flag::plain_comp;
use flag_type::Type;

verus! {

/// A positional-argument slot: its id, and how many values it takes before
/// the schema advances to the next slot.
#[derive(Debug)]
pub struct Arg {
    pub id: id::Valued,
    pub max_values: usize,
}

/// A command schema entry: an immutable tree, owned top-down.
#[derive(Debug)]
pub struct Command {
    pub name: String,
    pub description: String,
    pub all_flags: Vec<Flag>,
    pub args: Vec<Arg>,
    pub commands: Vec<Command>,
}

} // verus!

verus! {

broadcast use vstd::std_specs::vec::group_vec_axioms;

/// One token's shape, as the engine sees it: inside an opaque passthrough
/// every token is forced to a plain value.
pub open spec fn classify_tok(disable: bool, t: Seq<char>) -> TokenShape {
    if disable {
        TokenShape::NotFlag
    } else {
        classify(t)
    }
}

/// Model of a token list.
pub open spec fn toks_view(args: Seq<String>) -> Seq<Seq<char>> {
    args.map_values(|s: String| s@)
}

/// Index of the first subcommand with this name.
pub open spec fn find_sub_idx(cmds: Seq<Command>, name: Seq<char>, i: int) -> Option<int>
    decreases cmds.len() - i,
{
    if i < 0 || i >= cmds.len() {
        None
    } else if cmds[i].name@ == name {
        Some(i)
    } else {
        find_sub_idx(cmds, name, i + 1)
    }
}

/// The subcommand-name candidates, tagged with the "command" group.
pub open spec fn sub_comps(cmds: Seq<Command>) -> Seq<CompModel> {
    cmds.map_values(
        |c: Command| CompModel {
            value: c.name@,
            description: c.description@,
            group: Some("command"@),
            always_match: false,
        },
    )
}

/// Index of the first eligible flag with this long name.
pub open spec fn find_long_idx(flags: Seq<Flag>, h: Seq<HUnit>, name: Seq<char>, i: int) -> Option<
    int,
>
    decreases flags.len() - i,
{
    if i < 0 || i >= flags.len() {
        None
    } else if flags[i].eligible(h) && flags[i].matches_long(name) {
        Some(i)
    } else {
        find_long_idx(flags, h, name, i + 1)
    }
}

/// Index of the first eligible flag with this short name.
pub open spec fn find_short_idx(flags: Seq<Flag>, h: Seq<HUnit>, c: char, i: int) -> Option<int>
    decreases flags.len() - i,
{
    if i < 0 || i >= flags.len() {
        None
    } else if flags[i].eligible(h) && flags[i].matches_short(c) {
        Some(i)
    } else {
        find_short_idx(flags, h, c, i + 1)
    }
}

/// The name candidates of every eligible flag, in schema order.
pub open spec fn eligible_comps(
    flags: Seq<Flag>,
    h: Seq<HUnit>,
    is_long: Option<bool>,
    i: int,
) -> Seq<CompModel>
    decreases flags.len() - i,
{
    if i < 0 || i >= flags.len() {
        Seq::empty()
    } else if flags[i].eligible(h) {
        flags[i].flag_completions(is_long) + eligible_comps(flags, h, is_long, i + 1)
    } else {
        eligible_comps(flags, h, is_long, i + 1)
    }
}

/// Candidates built from a possible-value list.
pub open spec fn pv_comps(pv: Seq<(Seq<char>, Seq<char>)>) -> Seq<CompModel> {
    pv.map_values(|p: (Seq<char>, Seq<char>)| plain_comp(p.0, p.1))
}

/// Stage the completion of a valued flag's value: answered locally from the
/// flag's own value list or a `Certain` id's list, else handed back keyed on
/// the `Uncertain` id.
pub open spec fn stage_valued_spec(
    va: flag_type::Valued,
    prefix: Seq<char>,
    arg: Seq<char>,
    value: Seq<char>,
    preexist: Seq<CompModel>,
) -> GroupModel {
    if va.possible@.len() > 0 {
        GroupModel::Ready(
            ReadyModel {
                arg,
                comps: preexist + prefix_comps(prefix, pv_comps(id::pv_model(va.possible))),
            },
        )
    } else {
        match va.id.proj() {
            Some(u) => GroupModel::Unready {
                unready: UnreadyModel { arg, preexist, prefix },
                id: u,
                value,
            },
            None => GroupModel::Ready(
                ReadyModel { arg, comps: preexist + prefix_comps(prefix, pv_comps(va.id.possible())) },
            ),
        }
    }
}

/// Stage the completion of a positional slot: a `Certain` id answers from its
/// own list, an `Uncertain` id is handed back; the final token is both the
/// partial text and the value to resolve.
pub open spec fn stage_arg_spec(aid: id::Valued, arg: Seq<char>, preexist: Seq<CompModel>) -> GroupModel {
    match aid.proj() {
        Some(u) => GroupModel::Unready {
            unready: UnreadyModel { arg, preexist, prefix: Seq::empty() },
            id: u,
            value: arg,
        },
        None => GroupModel::Ready(
            ReadyModel { arg, comps: preexist + pv_comps(aid.possible()) },
        ),
    }
}

/// The outcome of scanning a short-flag cluster: an error, or the terminal
/// flag with the cluster consumed so far and an inline value, if any.  The
/// history carries the boolean and empty-valued occurrences recorded along
/// the way, which stay even when the scan fails later.
pub enum ShortsRes {
    Fail { h: Seq<HUnit>, e: ErrModel },
    Found { h: Seq<HUnit>, flag: int, flag_part: Seq<char>, value: Option<Seq<char>> },
}

/// Scan a short-flag cluster `s` from character position `i`, resolving each
/// character to a flag: booleans are recorded and the scan continues, a
/// `NoNeed` flag takes the remaining characters as its inline value, `=`
/// attaches the rest to the current flag, and the last character is the
/// terminal flag.
pub open spec fn resolve_shorts_spec(cmd: Command, h: Seq<HUnit>, s: Seq<char>, i: int) -> ShortsRes
    decreases s.len() - i,
{
    if i < 1 || i >= s.len() {
        ShortsRes::Fail { h, e: ErrModel::FlagNotFound(s) }
    } else {
        let ch = s[i];
        match find_short_idx(cmd.all_flags@, h, ch, 0) {
            None => ShortsRes::Fail { h, e: ErrModel::FlagNotFound(seq![ch]) },
            Some(fi) => {
                let f = cmd.all_flags@[fi];
                if i + 1 >= s.len() {
                    ShortsRes::Found { h, flag: fi, flag_part: s, value: None }
                } else if s[i + 1] == '=' {
                    match f.ty {
                        Type::Bool(_) => ShortsRes::Fail {
                            h,
                            e: ErrModel::BoolFlagEqualsValue(s),
                        },
                        Type::Valued(_) => ShortsRes::Found {
                            h,
                            flag: fi,
                            flag_part: s.take(i + 2),
                            value: Some(s.skip(i + 2)),
                        },
                    }
                } else {
                    match f.ty {
                        Type::Bool(b) => resolve_shorts_spec(
                            cmd,
                            crate::history::push_no_model(h, b.id.0),
                            s,
                            i + 1,
                        ),
                        Type::Valued(va) => match va.complete_with_equal {
                            CompleteWithEqual::Must => ShortsRes::Fail {
                                h,
                                e: ErrModel::RequiresEqual(f.name_spec()),
                            },
                            CompleteWithEqual::Optional => resolve_shorts_spec(
                                cmd,
                                crate::history::push_valued_model(h, va.id.key(), Seq::empty()),
                                s,
                                i + 1,
                            ),
                            CompleteWithEqual::NoNeed => ShortsRes::Found {
                                h,
                                flag: fi,
                                flag_part: s.take(i + 1),
                                value: Some(s.skip(i + 1)),
                            },
                        },
                    }
                }
            },
        }
    }
}

/// What handling one matched flag (without an `=` part) does: fail, stage a
/// result, or record into the history and go on, possibly consuming the
/// value token.
pub enum SuppStep {
    Fail { h: Seq<HUnit>, e: ErrModel },
    Staged { h: Seq<HUnit>, g: GroupModel },
    Continue { h: Seq<HUnit>, skip: int },
}

/// Handle a matched flag whose name came without `=`.  `rest2` are the tokens
/// after the flag token (at least one).  A boolean flag is recorded; a
/// `Must`-equal flag fails; an `Optional`-equal flag records an empty
/// placeholder value; a `NoNeed` flag consumes the next token as its value,
/// failing when that token itself looks like a flag, and staging the value's
/// completion when it is the final token.
pub open spec fn flag_supplement_spec(f: Flag, h: Seq<HUnit>, rest2: Seq<Seq<char>>) -> SuppStep {
    match f.ty {
        Type::Bool(b) => SuppStep::Continue {
            h: crate::history::push_no_model(h, b.id.0),
            skip: 0,
        },
        Type::Valued(va) => match va.complete_with_equal {
            CompleteWithEqual::Must => SuppStep::Fail { h, e: ErrModel::RequiresEqual(f.name_spec()) },
            CompleteWithEqual::Optional => SuppStep::Continue {
                h: crate::history::push_valued_model(h, va.id.key(), Seq::empty()),
                skip: 0,
            },
            CompleteWithEqual::NoNeed => {
                let v = rest2[0];
                match classify(v) {
                    TokenShape::NotFlag | TokenShape::Empty | TokenShape::SingleDash => {
                        if rest2.len() == 1 {
                            SuppStep::Staged {
                                h,
                                g: stage_valued_spec(va, Seq::empty(), v, v, Seq::empty()),
                            }
                        } else {
                            SuppStep::Continue {
                                h: crate::history::push_valued_model(h, va.id.key(), v),
                                skip: 1,
                            }
                        }
                    },
                    _ => SuppStep::Fail { h, e: ErrModel::FlagNoValue(f.name_spec()) },
                }
            },
        },
    }
}

/// Handle the final token of a short-flag cluster: resolve the cluster, then
/// either stage the terminal valued flag's value completion, or record the
/// terminal boolean flag and list the remaining eligible short names appended
/// to the cluster.
pub open spec fn supp_last_shorts(cmd: Command, h: Seq<HUnit>, arg: Seq<char>) -> (
    Seq<HUnit>,
    Result<GroupModel, ErrModel>,
) {
    match resolve_shorts_spec(cmd, h, arg, 1) {
        ShortsRes::Fail { h: h2, e } => (h2, Err(e)),
        ShortsRes::Found { h: h2, flag: fi, flag_part, value } => {
            let f = cmd.all_flags@[fi];
            match f.ty {
                Type::Valued(va) => {
                    let val = match value {
                        Some(v) => v,
                        None => Seq::empty(),
                    };
                    let eq_needed = va.complete_with_equal != CompleteWithEqual::NoNeed
                        && value is None;
                    let more: Seq<CompModel> = if va.complete_with_equal
                        == CompleteWithEqual::Optional && value is None {
                        seq![plain_comp(flag_part, f.desc_spec())]
                    } else {
                        Seq::empty()
                    };
                    let prefix = if eq_needed {
                        flag_part.push('=')
                    } else {
                        flag_part
                    };
                    (h2, Ok(stage_valued_spec(va, prefix, arg, val, more)))
                },
                Type::Bool(b) => {
                    let h3 = crate::history::push_no_model(h2, b.id.0);
                    let comps = cluster_comps(
                        eligible_comps(cmd.all_flags@, h3, Some(false), 0),
                        flag_part,
                    );
                    if comps.len() == 0 {
                        (h3, Err(ErrModel::UnexpectedFlag))
                    } else {
                        (h3, Ok(GroupModel::Ready(ReadyModel { arg, comps })))
                    }
                },
            }
        },
    }
}

/// Short-name candidates appended to an already-consumed cluster: the leading
/// dash of each name is replaced by the cluster.
pub open spec fn cluster_comps(comps: Seq<CompModel>, flag_part: Seq<char>) -> Seq<CompModel> {
    comps.map_values(|c: CompModel| CompModel { value: flag_part + c.value.skip(1), ..c })
}

/// Handle the final token: build the candidate set it asks for, stage a
/// handback, or fail.
pub open spec fn supp_last(cmd: Command, st: (int, int), h: Seq<HUnit>, arg: Seq<char>) -> (
    Seq<HUnit>,
    Result<GroupModel, ErrModel>,
) {
    let disable = cmd.commands@.len() > 0 && ctx_has_seen(st);
    match classify_tok(disable, arg) {
        TokenShape::Empty | TokenShape::NotFlag => {
            let cmd_comps: Seq<CompModel> = if ctx_has_seen(st) {
                Seq::empty()
            } else {
                sub_comps(cmd.commands@)
            };
            match ctx_next(cmd.args@, st) {
                (st2, Some(a)) => (h, Ok(stage_arg_spec(a.id, arg, cmd_comps))),
                (st2, None) => if cmd_comps.len() == 0 {
                    (h, Err(ErrModel::UnexpectedArg(arg)))
                } else {
                    (h, Ok(GroupModel::Ready(ReadyModel { arg, comps: cmd_comps })))
                },
            }
        },
        TokenShape::DoubleDash => check_no_flag_spec(
            h,
            arg,
            eligible_comps(cmd.all_flags@, h, Some(true), 0),
        ),
        TokenShape::Long { body, equal: None } => check_no_flag_spec(
            h,
            arg,
            eligible_comps(cmd.all_flags@, h, Some(true), 0),
        ),
        TokenShape::SingleDash => check_no_flag_spec(
            h,
            arg,
            eligible_comps(cmd.all_flags@, h, None, 0),
        ),
        TokenShape::Long { body, equal: Some(v) } => {
            match find_long_idx(cmd.all_flags@, h, body, 0) {
                None => (h, Err(ErrModel::FlagNotFound(body))),
                Some(fi) => match cmd.all_flags@[fi].ty {
                    Type::Bool(_) => (h, Err(ErrModel::BoolFlagEqualsValue(arg))),
                    Type::Valued(va) => (
                        h,
                        Ok(
                            stage_valued_spec(
                                va,
                                seq!['-', '-'] + body + seq!['='],
                                arg,
                                v,
                                Seq::empty(),
                            ),
                        ),
                    ),
                },
            }
        },
        TokenShape::Short { .. } | TokenShape::MultiShort { .. } => supp_last_shorts(cmd, h, arg),
        TokenShape::Invalid(_) => (h, Err(ErrModel::FlagNotFound(arg))),
    }
}

/// A candidate list that may not be empty: a dash token that finds no
/// eligible flag at all is an error.
pub open spec fn check_no_flag_spec(h: Seq<HUnit>, arg: Seq<char>, comps: Seq<CompModel>) -> (
    Seq<HUnit>,
    Result<GroupModel, ErrModel>,
) {
    if comps.len() == 0 {
        (h, Err(ErrModel::UnexpectedFlag))
    } else {
        (h, Ok(GroupModel::Ready(ReadyModel { arg, comps })))
    }
}

/// Route one token to the positional-argument cursor, then go on with the
/// rest at this level.
pub open spec fn supp_arg_then(
    cmd: Command,
    toks: Seq<Seq<char>>,
    st: (int, int),
    h: Seq<HUnit>,
) -> (Seq<HUnit>, Result<GroupModel, ErrModel>)
    decreases cmd, toks.len(), 1int,
{
    if toks.len() < 2 {
        (h, Err(ErrModel::ArgsTooShort))
    } else {
        match ctx_next(cmd.args@, st) {
        (st2, Some(a)) => supp_recur(
            cmd,
            toks.skip(1),
            st2,
            crate::history::push_valued_model(h, a.id.key(), toks[0]),
        ),
            (st2, None) => (h, Err(ErrModel::UnexpectedArg(toks[0]))),
        }
    }
}

/// Handle a matched flag (by index) for a non-final token, then go on with
/// the rest at this level.
pub open spec fn handle_flag_then(
    cmd: Command,
    toks: Seq<Seq<char>>,
    st: (int, int),
    h: Seq<HUnit>,
    fi: int,
    equal: Option<Seq<char>>,
) -> (Seq<HUnit>, Result<GroupModel, ErrModel>)
    decreases cmd, toks.len(), 1int,
{
    let f = cmd.all_flags@[fi];
    if toks.len() < 2 {
        (h, Err(ErrModel::ArgsTooShort))
    } else {
        match equal {
        Some(v) => match f.ty {
            Type::Valued(va) => supp_recur(
                cmd,
                toks.skip(1),
                st,
                crate::history::push_valued_model(h, va.id.key(), v),
            ),
            Type::Bool(_) => (h, Err(ErrModel::BoolFlagEqualsValue(toks[0]))),
        },
            None => match flag_supplement_spec(f, h, toks.skip(1)) {
                SuppStep::Fail { h: h2, e } => (h2, Err(e)),
                SuppStep::Staged { h: h2, g } => (h2, Ok(g)),
                SuppStep::Continue { h: h2, skip } => {
                    if 0 <= skip && 1 + skip <= toks.len() {
                        supp_recur(cmd, toks.skip(1 + skip), st, h2)
                    } else {
                        (h2, Err(ErrModel::ArgsTooShort))
                    }
                },
            },
        }
    }
}

/// Work through the tokens of one command level, left to right.
pub open spec fn supp_recur(cmd: Command, toks: Seq<Seq<char>>, st: (int, int), h: Seq<HUnit>) -> (
    Seq<HUnit>,
    Result<GroupModel, ErrModel>,
)
    decreases cmd, toks.len(), 2int,
    via supp_recur_decreases
{
    if toks.len() == 0 {
        (h, Err(ErrModel::ArgsTooShort))
    } else if toks.len() == 1 {
        supp_last(cmd, st, h, toks[0])
    } else {
        let t = toks[0];
        let disable = cmd.commands@.len() > 0 && ctx_has_seen(st);
        match classify_tok(disable, t) {
            TokenShape::SingleDash | TokenShape::DoubleDash | TokenShape::Empty => supp_arg_then(
                cmd,
                toks,
                st,
                h,
            ),
            TokenShape::NotFlag => {
                if ctx_has_seen(st) {
                    supp_arg_then(cmd, toks, st, h)
                } else {
                    match find_sub_idx(cmd.commands@, t, 0) {
                        Some(j) => if 0 <= j < cmd.commands@.len() {
                            supp_level(cmd.commands@[j], toks.skip(1), h)
                        } else {
                            supp_arg_then(cmd, toks, st, h)
                        },
                        None => supp_arg_then(cmd, toks, st, h),
                    }
                }
            },
            TokenShape::Long { body, equal } => {
                match find_long_idx(cmd.all_flags@, h, body, 0) {
                    None => (h, Err(ErrModel::FlagNotFound(body))),
                    Some(fi) => handle_flag_then(cmd, toks, st, h, fi, equal),
                }
            },
            TokenShape::Short { .. } | TokenShape::MultiShort { .. } => {
                match resolve_shorts_spec(cmd, h, t, 1) {
                    ShortsRes::Fail { h: h2, e } => (h2, Err(e)),
                    ShortsRes::Found { h: h2, flag: fi, flag_part, value } => handle_flag_then(
                        cmd,
                        toks,
                        st,
                        h2,
                        fi,
                        value,
                    ),
                }
            },
            TokenShape::Invalid(_) => (h, Err(ErrModel::FlagNotFound(t))),
        }
    }
}

#[via_fn]
proof fn supp_recur_decreases(cmd: Command, toks: Seq<Seq<char>>, st: (int, int), h: Seq<HUnit>) {
    assert forall|j: int| 0 <= j < cmd.commands@.len() implies (decreases_to!(cmd =>
    cmd.commands@[j])) by {
        assert(decreases_to!(cmd => cmd.commands));
        assert(decreases_to!(cmd.commands => cmd.commands@[j]));
    }
}

/// Enter one command level with a fresh positional-argument cursor.
pub open spec fn supp_level(cmd: Command, toks: Seq<Seq<char>>, h: Seq<HUnit>) -> (
    Seq<HUnit>,
    Result<GroupModel, ErrModel>,
)
    decreases cmd, toks.len(), 3int,
{
    supp_recur(cmd, toks, (0int, 0int), h)
}

/// What one completion request does: discard the program name, require at
/// least one remaining token, and walk the schema tree from the root.
pub open spec fn supplement_spec(cmd: Command, toks: Seq<Seq<char>>, h: Seq<HUnit>) -> (
    Seq<HUnit>,
    Result<GroupModel, ErrModel>,
) {
    if toks.len() < 2 {
        (h, Err(ErrModel::ArgsTooShort))
    } else {
        supp_level(cmd, toks.skip(1), h)
    }
}

} // verus!

verus! {

/// A found index lies in bounds and names a flag that is eligible and
/// matches; earlier flags do not.
pub proof fn lemma_find_long_idx_bounds(flags: Seq<Flag>, h: Seq<HUnit>, name: Seq<char>, i: int)
    requires
        0 <= i,
    ensures
        match find_long_idx(flags, h, name, i) {
            Some(j) => i <= j < flags.len() && flags[j].eligible(h) && flags[j].matches_long(
                name,
            ),
            None => true,
        },
    decreases flags.len() - i,
{
    if i < flags.len() {
        if flags[i].eligible(h) && flags[i].matches_long(name) {
        } else {
            lemma_find_long_idx_bounds(flags, h, name, i + 1);
        }
    }
}

/// A found index lies in bounds and names a flag that is eligible and
/// matches; earlier flags do not.
pub proof fn lemma_find_short_idx_bounds(flags: Seq<Flag>, h: Seq<HUnit>, c: char, i: int)
    requires
        0 <= i,
    ensures
        match find_short_idx(flags, h, c, i) {
            Some(j) => i <= j < flags.len() && flags[j].eligible(h) && flags[j].matches_short(c),
            None => true,
        },
    decreases flags.len() - i,
{
    if i < flags.len() {
        if flags[i].eligible(h) && flags[i].matches_short(c) {
        } else {
            lemma_find_short_idx_bounds(flags, h, c, i + 1);
        }
    }
}

/// A found index lies in bounds and names the subcommand looked for.
pub proof fn lemma_find_sub_idx_bounds(cmds: Seq<Command>, name: Seq<char>, i: int)
    requires
        0 <= i,
    ensures
        match find_sub_idx(cmds, name, i) {
            Some(j) => i <= j < cmds.len() && cmds[j].name@ == name,
            None => true,
        },
    decreases cmds.len() - i,
{
    if i < cmds.len() {
        if cmds[i].name@ == name {
        } else {
            lemma_find_sub_idx_bounds(cmds, name, i + 1);
        }
    }
}

/// Classify one token, except inside an opaque passthrough, where every token
/// is a plain value.
pub(crate) fn parse_flag<'x>(s: &'x str, disable_flag: bool) -> (r: ParsedFlag<'x>)
    ensures
        r@ == classify_tok(disable_flag, s@),
{
    if disable_flag {
        ParsedFlag::NotFlag
    } else {
        ParsedFlag::new(s)
    }
}

/// A one-character string.
pub(crate) fn char_to_string(c: char) -> (r: String)
    ensures
        r@ == seq![c],
{
    let mut s = String::new();
    crate::strutil::push_char(&mut s, c);
    proof {
        assert(s@ =~= seq![c]);
    }
    s
}

/// Candidates built from a possible-value list.
pub(crate) fn pv_to_comps(pv: &id::PossibleValues) -> (r: Vec<Completion>)
    ensures
        crate::completion::comps_view(r@) == pv_comps(id::pv_model(*pv)),
{
    let mut out: Vec<Completion> = Vec::new();
    let n = pv.len();
    let mut i: usize = 0;
    while i < n
        invariant
            0 <= i <= n,
            n == pv@.len(),
            out@.len() == i,
            crate::completion::comps_view(out@) =~= pv_comps(id::pv_model(*pv)).take(i as int),
        decreases n - i,
    {
        out.push(Completion::new(pv[i].0.as_str(), pv[i].1.as_str()));
        proof {
            assert(crate::completion::comps_view(out@) =~= pv_comps(id::pv_model(*pv)).take(
                i as int + 1,
            ));
        }
        i = i + 1;
    }
    proof {
        assert(pv_comps(id::pv_model(*pv)).take(n as int) =~= pv_comps(id::pv_model(*pv)));
    }
    out
}

/// Stage the completion of a valued flag's value.
pub(crate) fn stage_valued(
    va: &flag_type::Valued,
    prefix: String,
    arg: String,
    value: String,
    preexist: Vec<Completion>,
) -> (r: CompletionGroup)
    ensures
        r@ == stage_valued_spec(
            *va,
            prefix@,
            arg@,
            value@,
            crate::completion::comps_view(preexist@),
        ),
{
    if va.possible.len() > 0 {
        let comps = pv_to_comps(&va.possible);
        Unready::new(prefix, arg).preexist(preexist).to_ready_grp(comps)
    } else {
        match va.id.id() {
            Some(u) => CompletionGroup::Unready {
                unready: Unready::new(prefix, arg).preexist(preexist),
                id: u,
                value,
            },
            None => {
                let comps = match va.id.certain_values() {
                    Some(v) => pv_to_comps(v),
                    None => Vec::new(),
                };
                Unready::new(prefix, arg).preexist(preexist).to_ready_grp(
                    comps,
                )
            },
        }
    }
}

/// Stage the completion of a positional slot.
pub(crate) fn stage_arg(aid: &id::Valued, arg: String, preexist: Vec<Completion>) -> (r:
    CompletionGroup)
    ensures
        r@ == stage_arg_spec(*aid, arg@, crate::completion::comps_view(preexist@)),
{
    match aid.id() {
        Some(u) => CompletionGroup::Unready {
            unready: Unready::new(String::new(), arg.clone()).preexist(
                preexist,
            ),
            id: u,
            value: arg,
        },
        None => {
            let comps = match aid.certain_values() {
                Some(v) => pv_to_comps(v),
                None => Vec::new(),
            };
            let r = Unready::new(String::new(), arg).preexist(preexist)
                .to_ready_grp(comps);
            proof {
                assert(crate::completion::prefix_comps(Seq::<char>::empty(), pv_comps(aid.possible()))
                    =~= pv_comps(aid.possible()));
            }
            r
        },
    }
}

} // verus!

verus! {

impl Command {
    /// Whether this level is in opaque passthrough: it has subcommands and a
    /// positional value has already been accepted.
    pub(crate) fn doing_external(&self, ctx: &ArgsContext<'_>) -> (r: bool)
        ensures
            r == (self.commands@.len() > 0 && ctx_has_seen(ctx.st())),
    {
        self.commands.len() > 0 && ctx.has_seen_arg()
    }

    /// The first subcommand with this name.
    pub(crate) fn find_sub(&self, name: &str) -> (r: Option<usize>)
        ensures
            match r {
                Some(j) => find_sub_idx(self.commands@, name@, 0) == Some(j as int) && j
                    < self.commands@.len(),
                None => find_sub_idx(self.commands@, name@, 0) is None,
            },
    {
        let n = self.commands.len();
        let mut j: usize = 0;
        while j < n
            invariant
                0 <= j <= n,
                n == self.commands@.len(),
                find_sub_idx(self.commands@, name@, 0) == find_sub_idx(
                    self.commands@,
                    name@,
                    j as int,
                ),
            decreases n - j,
        {
            if crate::strutil::str_eq(self.commands[j].name.as_str(), name) {
                return Some(j);
            }
            j = j + 1;
        }
        None
    }

    /// The first eligible flag with this long name.
    pub(crate) fn find_long_flag(&self, history: &History, name: &str) -> (r: Option<usize>)
        ensures
            match r {
                Some(j) => find_long_idx(self.all_flags@, history@, name@, 0) == Some(j as int)
                    && j < self.all_flags@.len(),
                None => find_long_idx(self.all_flags@, history@, name@, 0) is None,
            },
    {
        let n = self.all_flags.len();
        let mut j: usize = 0;
        while j < n
            invariant
                0 <= j <= n,
                n == self.all_flags@.len(),
                find_long_idx(self.all_flags@, history@, name@, 0) == find_long_idx(
                    self.all_flags@,
                    history@,
                    name@,
                    j as int,
                ),
            decreases n - j,
        {
            let f = &self.all_flags[j];
            let eligible = !f.once || !f.exists_in_history(history);
            if eligible && f.has_long(name) {
                return Some(j);
            }
            j = j + 1;
        }
        None
    }

    /// The first eligible flag with this short name.
    pub(crate) fn find_short_flag(&self, history: &History, c: char) -> (r: Option<usize>)
        ensures
            match r {
                Some(j) => find_short_idx(self.all_flags@, history@, c, 0) == Some(j as int) && j
                    < self.all_flags@.len(),
                None => find_short_idx(self.all_flags@, history@, c, 0) is None,
            },
    {
        let n = self.all_flags.len();
        let mut j: usize = 0;
        while j < n
            invariant
                0 <= j <= n,
                n == self.all_flags@.len(),
                find_short_idx(self.all_flags@, history@, c, 0) == find_short_idx(
                    self.all_flags@,
                    history@,
                    c,
                    j as int,
                ),
            decreases n - j,
        {
            let f = &self.all_flags[j];
            let eligible = !f.once || !f.exists_in_history(history);
            if eligible && f.has_short(c) {
                return Some(j);
            }
            j = j + 1;
        }
        None
    }

    /// The name candidates of every eligible flag, in schema order.
    pub(crate) fn flags_completions(&self, history: &History, is_long: Option<bool>) -> (r: Vec<
        Completion,
    >)
        ensures
            comps_view(r@) == eligible_comps(self.all_flags@, history@, is_long, 0),
    {
        let mut out: Vec<Completion> = Vec::new();
        let n = self.all_flags.len();
        let mut j: usize = 0;
        proof {
            assert(comps_view(out@) =~= Seq::<CompModel>::empty());
        }
        while j < n
            invariant
                0 <= j <= n,
                n == self.all_flags@.len(),
                comps_view(out@) + eligible_comps(self.all_flags@, history@, is_long, j as int)
                    =~= eligible_comps(self.all_flags@, history@, is_long, 0),
            decreases n - j,
        {
            let f = &self.all_flags[j];
            let eligible = !f.once || !f.exists_in_history(history);
            if eligible {
                let mut add = f.gen_completion(is_long);
                let ghost out_prev = out@;
                let ghost add_view = comps_view(add@);
                out.append(&mut add);
                proof {
                    assert(comps_view(out@) =~= comps_view(out_prev) + add_view);
                }
            }
            j = j + 1;
        }
        proof {
            assert(eligible_comps(self.all_flags@, history@, is_long, n as int)
                =~= Seq::<CompModel>::empty());
            assert(comps_view(out@) =~= eligible_comps(self.all_flags@, history@, is_long, 0));
        }
        out
    }
}

/// Route one token to the positional-argument cursor: the current slot's id
/// records it, or there is no slot left and the token is unexpected.
pub(crate) fn supplement_arg(
    history: &mut History,
    ctx: &mut ArgsContext<'_>,
    arg: String,
) -> (r: Result<(), Error>)
    ensures
        final(ctx).args == old(ctx).args,
        final(ctx).st() == ctx_next(old(ctx).args@, old(ctx).st()).0,
        match ctx_next(old(ctx).args@, old(ctx).st()).1 {
            Some(a) => (r is Ok && final(history)@ == crate::history::push_valued_model(
                old(history)@,
                a.id.key(),
                arg@,
            )),
            None => (r matches Err(e) && e@ == ErrModel::UnexpectedArg(arg@) && final(history)@
                == old(history)@),
        },
{
    match ctx.next_arg() {
        None => Err(Error::UnexpectedArg(arg)),
        Some(arg_obj) => {
            history.push_valued(arg_obj.id.duplicate(), arg);
            Ok(())
        },
    }
}

/// A candidate list that may not be empty: a dash token that finds no
/// eligible flag at all is an error.
pub(crate) fn check_no_flag(arg: String, v: Vec<Completion>) -> (r: Result<CompletionGroup, Error>)
    ensures
        comps_view(v@).len() == 0 ==> (r matches Err(e) && e@ == ErrModel::UnexpectedFlag),
        comps_view(v@).len() > 0 ==> (r matches Ok(g) && g@ == GroupModel::Ready(
            ReadyModel { arg: arg@, comps: comps_view(v@) },
        )),
{
    if v.len() == 0 {
        return Err(Error::UnexpectedFlag);
    }
    Ok(CompletionGroup::new_ready(v, arg))
}

} // verus!

verus! {

impl Flag {
    /// Handle this flag, just matched by name without `=`, with the tokens
    /// from position `i` still to come.  Yields how many extra tokens were
    /// consumed, or the staged completion when the flag's value turned out to
    /// be the final token.
    pub(crate) fn supplement(&self, history: &mut History, args: &Vec<String>, i: usize) -> (r:
        Result<(usize, Option<CompletionGroup>), Error>)
        requires
            i < args@.len(),
        ensures
            match flag_supplement_spec(*self, old(history)@, toks_view(args@).skip(i as int)) {
                SuppStep::Fail { h: h2, e } => final(history)@ == h2 && (r matches Err(err)
                    && err@ == e),
                SuppStep::Staged { h: h2, g } => final(history)@ == h2 && (r matches Ok(p)
                    && p.1 matches Some(grp) && grp@ == g),
                SuppStep::Continue { h: h2, skip } => final(history)@ == h2 && (r matches Ok(p)
                    && p.0 == skip && p.1 is None),
            },
    {
        proof {
            assert(toks_view(args@).skip(i as int)[0] == args@[i as int]@);
            assert(toks_view(args@).skip(i as int).len() == args@.len() - i);
        }
        let valued = match &self.ty {
            Type::Bool(b) => {
                b.push(history);
                return Ok((0, None));
            },
            Type::Valued(v) => v,
        };
        match valued.complete_with_equal {
            CompleteWithEqual::Must => {
                return Err(Error::RequiresEqual(self.name()));
            },
            CompleteWithEqual::Optional => {
                valued.push(history, String::new());
                return Ok((0, None));
            },
            CompleteWithEqual::NoNeed => {},
        }
        let arg = &args[i];
        let pf = ParsedFlag::new(arg.as_str());
        match pf {
            ParsedFlag::NotFlag | ParsedFlag::Empty | ParsedFlag::SingleDash => {},
            _ => {
                return Err(Error::FlagNoValue(self.name()));
            },
        }
        let n_args = args.len();
        if i + 1 == n_args {
            let group = stage_valued(
                valued,
                String::new(),
                arg.clone(),
                arg.clone(),
                Vec::new(),
            );
            proof {
                assert(comps_view(Seq::<Completion>::empty()) =~= Seq::<CompModel>::empty());
            }
            return Ok((0, Some(group)));
        }
        valued.push(history, arg.clone());
        Ok((1, None))
    }
}

impl Command {
    /// Scan a short-flag cluster, resolving each character to a flag.  Yields
    /// the terminal flag's index, the cluster consumed so far, and the inline
    /// value, if any; boolean and empty-valued occurrences recorded along the
    /// way stay in the history even when the scan fails later.
    pub(crate) fn resolve_shorts(&self, history: &mut History, shorts: &str) -> (r: Result<
        (usize, String, Option<String>),
        Error,
    >)
        requires
            shorts@.len() >= 2,
        ensures
            match resolve_shorts_spec(*self, old(history)@, shorts@, 1) {
                ShortsRes::Fail { h: h2, e } => final(history)@ == h2 && (r matches Err(err)
                    && err@ == e),
                ShortsRes::Found { h: h2, flag, flag_part, value } => final(history)@ == h2 && (
                r matches Ok(t) && t.0 == flag && t.1@ == flag_part && (match (t.2, value) {
                    (Some(v1), Some(v2)) => v1@ == v2,
                    (None, None) => true,
                    _ => false,
                })),
            },
    {
        let ghost h0 = old(history)@;
        let n = shorts.unicode_len();
        let mut i: usize = 1;
        while i < n
            invariant
                1 <= i <= n,
                n == shorts@.len(),
                n >= 2,
                h0 == old(history)@,
                resolve_shorts_spec(*self, h0, shorts@, 1) == resolve_shorts_spec(
                    *self,
                    history@,
                    shorts@,
                    i as int,
                ),
            decreases n - i,
        {
            let ch = shorts.get_char(i);
            match self.find_short_flag(history, ch) {
                None => {
                    return Err(Error::FlagNotFound(char_to_string(ch)));
                },
                Some(fi) => {
                    let f = &self.all_flags[fi];
                    if i + 1 >= n {
                        return Ok((fi, shorts.to_owned(), None));
                    }
                    if shorts.get_char(i + 1) == '=' {
                        match &f.ty {
                            Type::Bool(_) => {
                                return Err(Error::BoolFlagEqualsValue(shorts.to_owned()));
                            },
                            Type::Valued(_) => {
                                return Ok(
                                    (
                                        fi,
                                        shorts.substring_char(0, i + 2).to_owned(),
                                        Some(shorts.substring_char(i + 2, n).to_owned()),
                                    ),
                                );
                            },
                        }
                    }
                    match &f.ty {
                        Type::Bool(b) => {
                            b.push(history);
                        },
                        Type::Valued(va) => {
                            match va.complete_with_equal {
                                CompleteWithEqual::Must => {
                                    return Err(Error::RequiresEqual(f.name()));
                                },
                                CompleteWithEqual::Optional => {
                                    va.push(history, String::new());
                                },
                                CompleteWithEqual::NoNeed => {
                                    return Ok(
                                        (
                                            fi,
                                            shorts.substring_char(0, i + 1).to_owned(),
                                            Some(shorts.substring_char(i + 1, n).to_owned()),
                                        ),
                                    );
                                },
                            }
                        },
                    }
                },
            }
            i = i + 1;
        }
        Err(Error::FlagNotFound(shorts.to_owned()))
    }
}

} // verus!

verus! {

/// A terminal flag found by the cluster scan lies in bounds.
pub proof fn lemma_resolve_shorts_found(cmd: Command, h: Seq<HUnit>, s: Seq<char>, i: int)
    requires
        1 <= i,
    ensures
        match resolve_shorts_spec(cmd, h, s, i) {
            ShortsRes::Found { flag, .. } => 0 <= flag < cmd.all_flags@.len(),
            ShortsRes::Fail { .. } => true,
        },
    decreases s.len() - i,
{
    if 1 <= i < s.len() {
        let ch = s[i];
        lemma_find_short_idx_bounds(cmd.all_flags@, h, ch, 0);
        match find_short_idx(cmd.all_flags@, h, ch, 0) {
            None => {},
            Some(fi) => {
                let f = cmd.all_flags@[fi];
                if i + 1 < s.len() && s[i + 1] != '=' {
                    match f.ty {
                        Type::Bool(b) => {
                            lemma_resolve_shorts_found(
                                cmd,
                                crate::history::push_no_model(h, b.id.0),
                                s,
                                i + 1,
                            );
                        },
                        Type::Valued(va) => {
                            if va.complete_with_equal == CompleteWithEqual::Optional {
                                lemma_resolve_shorts_found(
                                    cmd,
                                    crate::history::push_valued_model(
                                        h,
                                        va.id.key(),
                                        Seq::empty(),
                                    ),
                                    s,
                                    i + 1,
                                );
                            }
                        },
                    }
                }
            },
        }
    }
}

/// Every candidate an eligible flag offers has a dash-prefixed, non-empty
/// value.
pub proof fn lemma_eligible_comps_nonempty(
    flags: Seq<Flag>,
    h: Seq<HUnit>,
    is_long: Option<bool>,
    i: int,
)
    ensures
        forall|k: int|
            0 <= k < eligible_comps(flags, h, is_long, i).len() ==> #[trigger] eligible_comps(
                flags,
                h,
                is_long,
                i,
            )[k].value.len() >= 1,
    decreases flags.len() - i,
{
    if 0 <= i < flags.len() {
        lemma_eligible_comps_nonempty(flags, h, is_long, i + 1);
        let fc = flags[i].flag_completions(is_long);
        assert forall|k: int| 0 <= k < fc.len() implies fc[k].value.len() >= 1 by {
            match flags[i].completion_base(is_long) {
                None => {},
                Some(v) => {
                    assert(v.len() >= 1);
                },
            }
        }
    }
}

impl Command {
    /// Handle the final token of a short-flag cluster.
    pub(crate) fn supplement_last_short_flags(&self, history: &mut History, arg: String) -> (r:
        Result<CompletionGroup, Error>)
        requires
            arg@.len() >= 2,
        ensures
            ({
                let (hm, res) = supp_last_shorts(*self, old(history)@, arg@);
                final(history)@ == hm && match res {
                    Ok(g) => (r matches Ok(grp) && grp@ == g),
                    Err(e) => (r matches Err(err) && err@ == e),
                }
            }),
    {
        proof {
            lemma_resolve_shorts_found(*self, old(history)@, arg@, 1);
        }
        let resolved = self.resolve_shorts(history, arg.as_str());
        let (fi, flag_part, value) = match resolved {
            Err(e) => {
                return Err(e);
            },
            Ok(t) => t,
        };
        let f = &self.all_flags[fi];
        match &f.ty {
            Type::Valued(va) => {
                let val: String = match &value {
                    Some(v) => v.clone(),
                    None => String::new(),
                };
                let has_value = match &value {
                    Some(_) => true,
                    None => false,
                };
                let needs_eq = !(match va.complete_with_equal {
                    CompleteWithEqual::NoNeed => true,
                    _ => false,
                }) && !has_value;
                let mut more: Vec<Completion> = Vec::new();
                let is_optional = match va.complete_with_equal {
                    CompleteWithEqual::Optional => true,
                    _ => false,
                };
                if is_optional && !has_value {
                    more.push(Completion::new(flag_part.as_str(), f.get_description()));
                }
                let mut prefix = flag_part;
                if needs_eq {
                    crate::strutil::push_char(&mut prefix, '=');
                }
                proof {
                    let (hm, res) = supp_last_shorts(*self, old(history)@, arg@);
                    assert(comps_view(more@) =~= (match resolve_shorts_spec(
                        *self,
                        old(history)@,
                        arg@,
                        1,
                    ) {
                        ShortsRes::Found { flag_part: fp, value: v0, .. } => {
                            if va.complete_with_equal == CompleteWithEqual::Optional && v0
                                is None {
                                seq![plain_comp(fp, f.desc_spec())]
                            } else {
                                Seq::<CompModel>::empty()
                            }
                        },
                        _ => Seq::<CompModel>::empty(),
                    }));
                }
                Ok(stage_valued(va, prefix, arg, val, more))
            },
            Type::Bool(b) => {
                b.push(history);
                let comps = self.flags_completions(history, Some(false));
                proof {
                    lemma_eligible_comps_nonempty(self.all_flags@, history@, Some(false), 0);
                    assert forall|m: int| 0 <= m < comps@.len() implies #[trigger] comps@[m]@
                        .value.len() >= 1 by {
                        assert(comps_view(comps@)[m] == comps@[m]@);
                    }
                }
                let mut out: Vec<Completion> = Vec::new();
                let n = comps.len();
                let mut k: usize = 0;
                proof {
                    assert(comps_view(out@) =~= cluster_comps(comps_view(comps@), flag_part@)
                        .take(0));
                }
                while k < n
                    invariant
                        0 <= k <= n,
                        n == comps@.len(),
                        forall|m: int|
                            0 <= m < comps@.len() ==> #[trigger] comps@[m]@.value.len() >= 1,
                        comps_view(out@) =~= cluster_comps(comps_view(comps@), flag_part@).take(
                            k as int,
                        ),
                    decreases n - k,
                {
                    let c = &comps[k];
                    proof {
                        assert(comps@[k as int]@.value.len() >= 1);
                    }
                    let cl = c.value.as_str().unicode_len();
                    let mut nv = flag_part.clone();
                    nv.append(c.value.as_str().substring_char(1, cl));
                    let nc = Completion {
                        value: nv,
                        description: c.description.clone(),
                        group: c.group,
                        always_match: c.always_match,
                    };
                    let ghost prev = out@;
                    out.push(nc);
                    proof {
                        let cc = cluster_comps(comps_view(comps@), flag_part@);
                        assert(comps@[k as int]@.value.skip(1) =~= c.value@.subrange(
                            1,
                            c.value@.len() as int,
                        ));
                        assert(comps_view(comps@)[k as int] == comps@[k as int]@);
                        assert(nc@ =~= cc[k as int]);
                        assert(comps_view(out@) =~= comps_view(prev).push(nc@));
                        assert(cc.take(k as int + 1) =~= cc.take(k as int).push(cc[k as int]));
                        assert(comps_view(out@) =~= cc.take(k as int + 1));
                    }
                    k = k + 1;
                }
                proof {
                    assert(cluster_comps(comps_view(comps@), flag_part@).take(n as int)
                        =~= cluster_comps(comps_view(comps@), flag_part@));
                }
                check_no_flag(arg, out)
            },
        }
    }
}

} // verus!

verus! {

impl Command {
    /// The subcommand-name candidates, tagged with the "command" group.
    pub(crate) fn sub_completions(&self) -> (r: Vec<Completion>)
        ensures
            comps_view(r@) == sub_comps(self.commands@),
    {
        let mut out: Vec<Completion> = Vec::new();
        let n = self.commands.len();
        let mut k: usize = 0;
        proof {
            assert(comps_view(out@) =~= sub_comps(self.commands@).take(0));
        }
        while k < n
            invariant
                0 <= k <= n,
                n == self.commands@.len(),
                comps_view(out@) =~= sub_comps(self.commands@).take(k as int),
            decreases n - k,
        {
            let c = &self.commands[k];
            let nc = Completion::new(c.name.as_str(), c.description.as_str()).group("command");
            let ghost prev = out@;
            out.push(nc);
            proof {
                let sc = sub_comps(self.commands@);
                assert(nc@ =~= sc[k as int]);
                assert(comps_view(out@) =~= comps_view(prev).push(nc@));
                assert(sc.take(k as int + 1) =~= sc.take(k as int).push(sc[k as int]));
            }
            k = k + 1;
        }
        proof {
            assert(sub_comps(self.commands@).take(n as int) =~= sub_comps(self.commands@));
        }
        out
    }

    /// Handle the final token: build the candidate set it asks for, stage a
    /// handback, or fail.
    pub(crate) fn supplement_last(
        &self,
        ctx: &mut ArgsContext<'_>,
        history: &mut History,
        arg: String,
    ) -> (r: Result<CompletionGroup, Error>)
        requires
            old(ctx).args@ == self.args@,
        ensures
            ({
                let (hm, res) = supp_last(*self, old(ctx).st(), old(history)@, arg@);
                final(history)@ == hm && match res {
                    Ok(g) => (r matches Ok(grp) && grp@ == g),
                    Err(e) => (r matches Err(err) && err@ == e),
                }
            }),
    {
        let disable = self.doing_external(ctx);
        let pf = parse_flag(arg.as_str(), disable);
        match pf {
            ParsedFlag::Empty | ParsedFlag::NotFlag => {
                let cmd_comps: Vec<Completion> = if ctx.has_seen_arg() {
                    Vec::new()
                } else {
                    self.sub_completions()
                };
                proof {
                    if ctx_has_seen(ctx.st()) {
                        assert(comps_view(Seq::<Completion>::empty())
                            =~= Seq::<CompModel>::empty());
                    }
                }
                match ctx.next_arg() {
                    Some(arg_obj) => Ok(stage_arg(&arg_obj.id, arg, cmd_comps)),
                    None => {
                        if cmd_comps.len() == 0 {
                            Err(Error::UnexpectedArg(arg))
                        } else {
                            Ok(CompletionGroup::new_ready(cmd_comps, arg))
                        }
                    },
                }
            },
            ParsedFlag::DoubleDash => {
                let comps = self.flags_completions(history, Some(true));
                check_no_flag(arg, comps)
            },
            ParsedFlag::SingleDash => {
                let comps = self.flags_completions(history, None);
                check_no_flag(arg, comps)
            },
            ParsedFlag::Long { body, equal: None } => {
                let comps = self.flags_completions(history, Some(true));
                check_no_flag(arg, comps)
            },
            ParsedFlag::Long { body, equal: Some(v) } => {
                match self.find_long_flag(history, body) {
                    None => Err(Error::FlagNotFound(body.to_owned())),
                    Some(fi) => {
                        proof {
                            lemma_find_long_idx_bounds(self.all_flags@, history@, body@, 0);
                        }
                        let f = &self.all_flags[fi];
                        match &f.ty {
                            Type::Bool(_) => Err(Error::BoolFlagEqualsValue(arg)),
                            Type::Valued(va) => {
                                let value = v.to_owned();
                                let mut prefix = "--".to_owned();
                                prefix.append(body);
                                crate::strutil::push_char(&mut prefix, '=');
                                proof {
                                    reveal_strlit("--");
                                    assert(prefix@ =~= seq!['-', '-'] + body@ + seq!['=']);
                                    assert(comps_view(Seq::<Completion>::empty())
                                        =~= Seq::<CompModel>::empty());
                                }
                                Ok(stage_valued(va, prefix, arg, value, Vec::new()))
                            },
                        }
                    },
                }
            },
            ParsedFlag::Short { .. } | ParsedFlag::MultiShort { .. } => {
                proof {
                    assert(arg@.len() >= 2);
                }
                self.supplement_last_short_flags(history, arg)
            },
            ParsedFlag::Error(_) => Err(Error::FlagNotFound(arg)),
        }
    }
}

} // verus!

verus! {

impl Command {
    /// Work through the tokens of one command level, left to right, with a
    /// fresh positional-argument cursor; descend into a subcommand when a
    /// plain token names one before any positional value was accepted.
    pub(crate) fn supplement_level(
        &self,
        history: &mut History,
        args: &Vec<String>,
        start: usize,
    ) -> (r: Result<CompletionGroup, Error>)
        requires
            start < args@.len(),
        ensures
            ({
                let (hm, res) = supp_level(
                    *self,
                    toks_view(args@).skip(start as int),
                    old(history)@,
                );
                final(history)@ == hm && match res {
                    Ok(g) => (r matches Ok(grp) && grp@ == g),
                    Err(e) => (r matches Err(err) && err@ == e),
                }
            }),
        decreases *self,
    {
        let ghost h0 = old(history)@;
        let ghost t_all = toks_view(args@);
        let mut ctx = ArgsContext::new(self.args.as_slice());
        let n = args.len();
        let mut i = start;
        loop
            invariant
                start <= i < n,
                n == args@.len(),
                h0 == old(history)@,
                t_all == toks_view(args@),
                ctx.args@ == self.args@,
                supp_level(*self, t_all.skip(start as int), h0) == supp_recur(
                    *self,
                    t_all.skip(i as int),
                    ctx.st(),
                    history@,
                ),
            decreases n - i,
        {
            let ghost st_pre = ctx.st();
            let ghost h_pre = history@;
            let ghost toks_i = t_all.skip(i as int);
            proof {
                assert(toks_i.len() == n - i);
                assert(toks_i[0] == args@[i as int]@);
                assert(toks_i.skip(1) =~= t_all.skip(i as int + 1));
            }
            let arg = args[i].clone();
            if i + 1 == n {
                return self.supplement_last(&mut ctx, history, arg);
            }
            let disable = self.doing_external(&ctx);
            let pf = parse_flag(arg.as_str(), disable);
            match pf {
                ParsedFlag::SingleDash | ParsedFlag::DoubleDash | ParsedFlag::Empty => {
                    match supplement_arg(history, &mut ctx, arg) {
                        Err(e) => {
                            return Err(e);
                        },
                        Ok(()) => {},
                    }
                    i = i + 1;
                },
                ParsedFlag::NotFlag => {
                    let go_sub = if ctx.has_seen_arg() {
                        None
                    } else {
                        self.find_sub(arg.as_str())
                    };
                    match go_sub {
                        Some(j) => {
                            proof {
                                lemma_find_sub_idx_bounds(self.commands@, arg@, 0);
                                assert(decreases_to!(*self => self.commands));
                                assert(decreases_to!(self.commands => self.commands@[j as int]));
                            }
                            let sub = &self.commands[j];
                            return sub.supplement_level(history, args, i + 1);
                        },
                        None => {
                            match supplement_arg(history, &mut ctx, arg) {
                                Err(e) => {
                                    return Err(e);
                                },
                                Ok(()) => {},
                            }
                            i = i + 1;
                        },
                    }
                },
                ParsedFlag::Long { body, equal } => {
                    match self.find_long_flag(history, body) {
                        None => {
                            return Err(Error::FlagNotFound(body.to_owned()));
                        },
                        Some(fi) => {
                            proof {
                                lemma_find_long_idx_bounds(self.all_flags@, history@, body@, 0);
                            }
                            match equal {
                                Some(v) => {
                                    let value = v.to_owned();
                                    let f = &self.all_flags[fi];
                                    match &f.ty {
                                        Type::Valued(va) => {
                                            va.push(history, value);
                                            i = i + 1;
                                        },
                                        Type::Bool(_) => {
                                            return Err(Error::BoolFlagEqualsValue(arg));
                                        },
                                    }
                                },
                                None => {
                                    let f = &self.all_flags[fi];
                                    let step = f.supplement(history, args, i + 1);
                                    proof {
                                        assert(toks_view(args@).skip(i as int + 1) =~= toks_i
                                            .skip(1));
                                    }
                                    match step {
                                        Err(e) => {
                                            return Err(e);
                                        },
                                        Ok((skip, Some(grp))) => {
                                            return Ok(grp);
                                        },
                                        Ok((skip, None)) => {
                                            proof {
                                                assert(skip == 0 || skip == 1);
                                                if skip == 1 {
                                                    assert(toks_i.skip(1).len() != 1);
                                                }
                                                assert(toks_i.skip(1 + skip as int) =~= t_all
                                                    .skip(i as int + 1 + skip as int));
                                            }
                                            i = i + 1 + skip;
                                        },
                                    }
                                },
                            }
                        },
                    }
                },
                ParsedFlag::Short { .. } | ParsedFlag::MultiShort { .. } => {
                    proof {
                        assert(arg@.len() >= 2);
                        lemma_resolve_shorts_found(*self, history@, arg@, 1);
                    }
                    let resolved = self.resolve_shorts(history, arg.as_str());
                    match resolved {
                        Err(e) => {
                            return Err(e);
                        },
                        Ok((fi, _flag_part, value)) => {
                            match value {
                                Some(v) => {
                                    let f = &self.all_flags[fi];
                                    match &f.ty {
                                        Type::Valued(va) => {
                                            va.push(history, v);
                                            i = i + 1;
                                        },
                                        Type::Bool(_) => {
                                            return Err(Error::BoolFlagEqualsValue(arg));
                                        },
                                    }
                                },
                                None => {
                                    let f = &self.all_flags[fi];
                                    let step = f.supplement(history, args, i + 1);
                                    proof {
                                        assert(toks_view(args@).skip(i as int + 1) =~= toks_i
                                            .skip(1));
                                    }
                                    match step {
                                        Err(e) => {
                                            return Err(e);
                                        },
                                        Ok((skip, Some(grp))) => {
                                            return Ok(grp);
                                        },
                                        Ok((skip, None)) => {
                                            proof {
                                                assert(skip == 0 || skip == 1);
                                                if skip == 1 {
                                                    assert(toks_i.skip(1).len() != 1);
                                                }
                                                assert(toks_i.skip(1 + skip as int) =~= t_all
                                                    .skip(i as int + 1 + skip as int));
                                            }
                                            i = i + 1 + skip;
                                        },
                                    }
                                },
                            }
                        },
                    }
                },
                ParsedFlag::Error(_) => {
                    return Err(Error::FlagNotFound(arg));
                },
            }
        }
    }

    /// Run one completion request against an existing history: the first
    /// token (the program name) is discarded, at least one token must remain,
    /// and the schema tree is walked from this command.
    pub fn supplement_with_history(&self, history: &mut History, args: &Vec<String>) -> (r: Result<
        CompletionGroup,
        Error,
    >)
        ensures
            ({
                let (hm, res) = supplement_spec(*self, toks_view(args@), old(history)@);
                final(history)@ == hm && match res {
                    Ok(g) => (r matches Ok(grp) && grp@ == g),
                    Err(e) => (r matches Err(err) && err@ == e),
                }
            }),
    {
        let n = args.len();
        if n < 2 {
            return Err(Error::ArgsTooShort);
        }
        self.supplement_level(history, args, 1)
    }

    /// Run one completion request from an empty history; the accumulated
    /// history is returned beside the result for value-resolution callbacks.
    pub fn supplement(&self, args: &Vec<String>) -> (r: Result<(History, CompletionGroup), Error>)
        ensures
            ({
                let (hm, res) = supplement_spec(*self, toks_view(args@), Seq::empty());
                match res {
                    Ok(g) => (r matches Ok(p) && p.0@ == hm && p.1@ == g),
                    Err(e) => (r matches Err(err) && err@ == e),
                }
            }),
    {
        let mut history = History::new();
        match self.supplement_with_history(&mut history, args) {
            Ok(grp) => Ok((history, grp)),
            Err(e) => Err(e),
        }
    }
}

} // verus!

verus! {

/// A `once` flag whose id is already in the history is passed over by name
/// lookup: no lookup ever answers with it.
pub proof fn lemma_once_flag_not_matched(
    flags: Seq<Flag>,
    h: Seq<HUnit>,
    k: int,
    name: Seq<char>,
    c: char,
)
    requires
        0 <= k < flags.len(),
        flags[k].once,
        flags[k].exists_in(h),
    ensures
        find_long_idx(flags, h, name, 0) != Some(k),
        find_short_idx(flags, h, c, 0) != Some(k),
{
    lemma_find_long_idx_bounds(flags, h, name, 0);
    lemma_find_short_idx_bounds(flags, h, c, 0);
}

/// Where a hidden `once` flag alone carries a long name, looking that name
/// up fails altogether, and the engine reports the flag as not found.
pub proof fn lemma_once_flag_not_found(
    flags: Seq<Flag>,
    h: Seq<HUnit>,
    k: int,
    name: Seq<char>,
    i: int,
)
    requires
        0 <= i,
        0 <= k < flags.len(),
        flags[k].once,
        flags[k].exists_in(h),
        forall|j: int| 0 <= j < flags.len() && j != k ==> !(#[trigger] flags[j].matches_long(name)),
    ensures
        find_long_idx(flags, h, name, i) is None,
    decreases flags.len() - i,
{
    if i < flags.len() {
        lemma_once_flag_not_found(flags, h, k, name, i + 1);
    }
}

/// The candidate lists of command levels do not change when an ineligible
/// flag is dropped from the schema: a hidden `once` flag contributes no
/// completions.
pub proof fn lemma_eligible_comps_drop_hidden(
    flags: Seq<Flag>,
    h: Seq<HUnit>,
    is_long: Option<bool>,
    k: int,
)
    requires
        0 <= k < flags.len(),
        !flags[k].eligible(h),
    ensures
        eligible_comps(flags, h, is_long, 0) == eligible_comps(flags.remove(k), h, is_long, 0),
{
    lemma_eligible_comps_drop_front(flags, h, is_long, k, 0);
}

/// Helper for dropping an ineligible flag: the candidate lists agree from
/// every index at or before the dropped one.
proof fn lemma_eligible_comps_drop_front(
    flags: Seq<Flag>,
    h: Seq<HUnit>,
    is_long: Option<bool>,
    k: int,
    i: int,
)
    requires
        0 <= i <= k < flags.len(),
        !flags[k].eligible(h),
    ensures
        eligible_comps(flags, h, is_long, i) == eligible_comps(flags.remove(k), h, is_long, i),
    decreases k - i,
{
    if i == k {
        lemma_eligible_comps_drop_tail(flags, h, is_long, k, k + 1);
    } else {
        assert(flags.remove(k)[i] == flags[i]);
        lemma_eligible_comps_drop_front(flags, h, is_long, k, i + 1);
    }
}

/// Helper for dropping a flag: past the dropped index, the candidate lists
/// agree up to the index shift.
proof fn lemma_eligible_comps_drop_tail(
    flags: Seq<Flag>,
    h: Seq<HUnit>,
    is_long: Option<bool>,
    k: int,
    i: int,
)
    requires
        0 <= k < i <= flags.len(),
    ensures
        eligible_comps(flags, h, is_long, i) == eligible_comps(
            flags.remove(k),
            h,
            is_long,
            i - 1,
        ),
    decreases flags.len() - i,
{
    if i < flags.len() {
        assert(flags.remove(k)[i - 1] == flags[i]);
        lemma_eligible_comps_drop_tail(flags, h, is_long, k, i + 1);
    }
}

} // verus!

verus! {

/// `--flag=value` and `--flag value` are the same command line: when the
/// flag is an eligible valued flag with the `NoNeed` policy, the value token
/// is not the final token and is itself a plain value, both spellings leave
/// the same history and the same result.
pub proof fn lemma_equal_forms_agree(
    cmd: Command,
    st: (int, int),
    h: Seq<HUnit>,
    t_eq: Seq<char>,
    t_flag: Seq<char>,
    name: Seq<char>,
    value: Seq<char>,
    k: int,
    rest: Seq<Seq<char>>,
)
    requires
        rest.len() >= 1,
        cmd.commands@.len() == 0 || !ctx_has_seen(st),
        classify(t_eq) == (TokenShape::Long { body: name, equal: Some(value) }),
        classify(t_flag) == (TokenShape::Long { body: name, equal: None }),
        (match classify(value) {
            TokenShape::NotFlag | TokenShape::Empty | TokenShape::SingleDash => true,
            _ => false,
        }),
        find_long_idx(cmd.all_flags@, h, name, 0) == Some(k),
        (match cmd.all_flags@[k].ty {
            Type::Valued(va) => va.complete_with_equal == CompleteWithEqual::NoNeed,
            Type::Bool(_) => false,
        }),
    ensures
        supp_recur(cmd, seq![t_eq] + rest, st, h) == supp_recur(
            cmd,
            seq![t_flag, value] + rest,
            st,
            h,
        ),
{
    lemma_find_long_idx_bounds(cmd.all_flags@, h, name, 0);
    let f = cmd.all_flags@[k];
    let va = f.ty->Valued_0;
    let h2 = crate::history::push_valued_model(h, va.id.key(), value);
    let toks1 = seq![t_eq] + rest;
    let toks2 = seq![t_flag, value] + rest;
    assert(toks1.len() == 1 + rest.len());
    assert(toks2.len() == 2 + rest.len());
    assert(toks1[0] == t_eq);
    assert(toks2[0] == t_flag);
    assert(toks1.skip(1) =~= rest);
    assert(toks2.skip(1) =~= seq![value] + rest);
    assert(toks2.skip(1)[0] == value);
    assert(toks2.skip(2) =~= rest);
    assert(toks2.skip(1).skip(2) =~= toks2.skip(3));

    // the `=` form: one step pushes the value and walks on
    assert(supp_recur(cmd, toks1, st, h) == handle_flag_then(cmd, toks1, st, h, k, Some(value)));
    assert(handle_flag_then(cmd, toks1, st, h, k, Some(value)) == supp_recur(
        cmd,
        rest,
        st,
        h2,
    ));

    // the separate-token form: one step consumes the value token, pushes the
    // same value, and walks on at the same spot
    assert(supp_recur(cmd, toks2, st, h) == handle_flag_then(cmd, toks2, st, h, k, None));
    assert(flag_supplement_spec(f, h, toks2.skip(1)) == (SuppStep::Continue { h: h2, skip: 1 }));
    assert(toks2.skip(2int) =~= rest);
    assert(handle_flag_then(cmd, toks2, st, h, k, None) == supp_recur(cmd, rest, st, h2));
}

/// A cluster of three boolean short flags equals the three single-short
/// tokens written out one by one: the same occurrences are recorded, in the
/// same order, and the walk goes on identically.
pub proof fn lemma_bool_cluster_agree(
    cmd: Command,
    st: (int, int),
    h: Seq<HUnit>,
    a: char,
    b: char,
    c: char,
    ka: int,
    kb: int,
    kc: int,
    ida: u32,
    idb: u32,
    idc: u32,
    rest: Seq<Seq<char>>,
)
    requires
        rest.len() >= 1,
        cmd.commands@.len() == 0 || !ctx_has_seen(st),
        a != '-' && a != '=',
        b != '-' && b != '=',
        c != '-' && c != '=',
        find_short_idx(cmd.all_flags@, h, a, 0) == Some(ka),
        cmd.all_flags@[ka].ty == Type::Bool(flag_type::Bool { id: id::NoVal(ida) }),
        find_short_idx(
            cmd.all_flags@,
            crate::history::push_no_model(h, ida),
            b,
            0,
        ) == Some(kb),
        cmd.all_flags@[kb].ty == Type::Bool(flag_type::Bool { id: id::NoVal(idb) }),
        find_short_idx(
            cmd.all_flags@,
            crate::history::push_no_model(crate::history::push_no_model(h, ida), idb),
            c,
            0,
        ) == Some(kc),
        cmd.all_flags@[kc].ty == Type::Bool(flag_type::Bool { id: id::NoVal(idc) }),
    ensures
        supp_recur(cmd, seq![seq!['-', a, b, c]] + rest, st, h) == supp_recur(
            cmd,
            seq![seq!['-', a], seq!['-', b], seq!['-', c]] + rest,
            st,
            h,
        ),
{
    let h1 = crate::history::push_no_model(h, ida);
    let h2 = crate::history::push_no_model(h1, idb);
    let h3 = crate::history::push_no_model(h2, idc);
    let cl = seq!['-', a, b, c];
    let sa = seq!['-', a];
    let sb = seq!['-', b];
    let sc = seq!['-', c];

    // classification of the cluster token
    assert(scan_valid(cl, 4, false, false, false) is None);
    assert(scan_valid(cl, 3, false, false, false) is None);
    assert(scan_valid(cl, 2, false, false, false) is None);
    assert(scan_valid(cl, 1, false, false, false) is None);
    let fp = cl.subrange(1, 4);
    assert(fp =~= seq![a, b, c]);
    assert(find_eq(fp, 3) is None);
    assert(find_eq(fp, 2) is None);
    assert(find_eq(fp, 1) is None);
    assert(find_eq(fp, 0) is None);
    assert(classify(cl) == (TokenShape::MultiShort { body: fp, equal: None }));

    // classification of the single-short tokens
    assert(scan_valid(sa, 2, false, false, false) is None);
    assert(scan_valid(sa, 1, false, false, false) is None);
    assert(sa.subrange(1, 2) =~= seq![a]);
    assert(classify(sa) == (TokenShape::Short { body: a, equal: None }));
    assert(scan_valid(sb, 2, false, false, false) is None);
    assert(scan_valid(sb, 1, false, false, false) is None);
    assert(sb.subrange(1, 2) =~= seq![b]);
    assert(classify(sb) == (TokenShape::Short { body: b, equal: None }));
    assert(scan_valid(sc, 2, false, false, false) is None);
    assert(scan_valid(sc, 1, false, false, false) is None);
    assert(sc.subrange(1, 2) =~= seq![c]);
    assert(classify(sc) == (TokenShape::Short { body: c, equal: None }));

    // the cluster records a and b while scanning and ends at c
    assert(resolve_shorts_spec(cmd, h2, cl, 3) == (ShortsRes::Found {
        h: h2,
        flag: kc,
        flag_part: cl,
        value: None,
    }));
    assert(resolve_shorts_spec(cmd, h1, cl, 2) == resolve_shorts_spec(cmd, h2, cl, 3));
    assert(resolve_shorts_spec(cmd, h, cl, 1) == resolve_shorts_spec(cmd, h1, cl, 2));

    let toks1 = seq![cl] + rest;
    let toks2 = seq![sa, sb, sc] + rest;
    assert(toks1.len() == 1 + rest.len());
    assert(toks1[0] == cl);
    assert(toks1.skip(1) =~= rest);
    assert(supp_recur(cmd, toks1, st, h) == handle_flag_then(cmd, toks1, st, h2, kc, None));
    assert(flag_supplement_spec(cmd.all_flags@[kc], h2, toks1.skip(1)) == (SuppStep::Continue {
        h: h3,
        skip: 0,
    }));
    assert(handle_flag_then(cmd, toks1, st, h2, kc, None) == supp_recur(cmd, rest, st, h3));

    // the three single-short tokens record the same ids one by one
    let toks2b = seq![sb, sc] + rest;
    let toks2c = seq![sc] + rest;
    assert(toks2[0] == sa);
    assert(toks2.skip(1) =~= toks2b);
    assert(toks2b[0] == sb);
    assert(toks2b.skip(1) =~= toks2c);
    assert(toks2c[0] == sc);
    assert(toks2c.skip(1) =~= rest);

    assert(resolve_shorts_spec(cmd, h, sa, 1) == (ShortsRes::Found {
        h,
        flag: ka,
        flag_part: sa,
        value: None,
    }));
    assert(supp_recur(cmd, toks2, st, h) == handle_flag_then(cmd, toks2, st, h, ka, None));
    assert(flag_supplement_spec(cmd.all_flags@[ka], h, toks2.skip(1)) == (SuppStep::Continue {
        h: h1,
        skip: 0,
    }));
    assert(handle_flag_then(cmd, toks2, st, h, ka, None) == supp_recur(cmd, toks2b, st, h1));

    assert(resolve_shorts_spec(cmd, h1, sb, 1) == (ShortsRes::Found {
        h: h1,
        flag: kb,
        flag_part: sb,
        value: None,
    }));
    assert(supp_recur(cmd, toks2b, st, h1) == handle_flag_then(cmd, toks2b, st, h1, kb, None));
    assert(flag_supplement_spec(cmd.all_flags@[kb], h1, toks2b.skip(1)) == (SuppStep::Continue {
        h: h2,
        skip: 0,
    }));
    assert(handle_flag_then(cmd, toks2b, st, h1, kb, None) == supp_recur(cmd, toks2c, st, h2));

    assert(resolve_shorts_spec(cmd, h2, sc, 1) == (ShortsRes::Found {
        h: h2,
        flag: kc,
        flag_part: sc,
        value: None,
    }));
    assert(supp_recur(cmd, toks2c, st, h2) == handle_flag_then(cmd, toks2c, st, h2, kc, None));
    assert(flag_supplement_spec(cmd.all_flags@[kc], h2, toks2c.skip(1)) == (SuppStep::Continue {
        h: h3,
        skip: 0,
    }));
    assert(handle_flag_then(cmd, toks2c, st, h2, kc, None) == supp_recur(cmd, rest, st, h3));
}

} // verus!

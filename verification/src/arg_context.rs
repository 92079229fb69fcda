//! The per-command-level cursor over the positional-argument schema: it hands
//! out the next expected slot, respecting each slot's maximum repeat count.

use vstd::prelude::*;

use crate::engine::Arg;

verus! {

/// Cursor state: the current slot, and how many values it has consumed.
/// A consumed-count that would pass the largest representable value stays
/// there.
pub open spec fn ctx_next(args: Seq<Arg>, st: (int, int)) -> ((int, int), Option<Arg>) {
    if st.0 < 0 || st.0 >= args.len() {
        (st, None)
    } else {
        let a = args[st.0];
        let c1 = if st.1 == usize::MAX {
            st.1
        } else {
            st.1 + 1
        };
        if a.max_values == c1 {
            ((st.0 + 1, 0), Some(a))
        } else {
            ((st.0, c1), Some(a))
        }
    }
}

/// Whether a cursor state has handed out at least one slot.
pub open spec fn ctx_has_seen(st: (int, int)) -> bool {
    st.0 != 0 || st.1 != 0
}

/// The cursor state after `k` calls.
pub open spec fn ctx_iter(args: Seq<Arg>, st: (int, int), k: nat) -> (int, int)
    decreases k,
{
    if k == 0 {
        st
    } else {
        ctx_iter(args, ctx_next(args, st).0, (k - 1) as nat)
    }
}

/// The cursor over one command level's ordered argument slots.
pub struct ArgsContext<'a> {
    pub args: &'a [Arg],
    pub cur_arg_values_count: usize,
    pub start_idx: usize,
}

impl<'a> ArgsContext<'a> {
    /// The cursor's abstract state.
    pub open spec fn st(self) -> (int, int) {
        (self.start_idx as int, self.cur_arg_values_count as int)
    }

    pub fn new(args: &'a [Arg]) -> (r: Self)
        ensures
            r.args@ == args@,
            r.st() == (0int, 0int),
    {
        Self { args, start_idx: 0, cur_arg_values_count: 0 }
    }

    /// Whether some positional value has already been accepted at this level.
    pub fn has_seen_arg(&self) -> (r: bool)
        ensures
            r == ctx_has_seen(self.st()),
    {
        self.start_idx != 0 || self.cur_arg_values_count != 0
    }

    /// The slot the next positional value belongs to, advancing the cursor;
    /// nothing when the schema has no slot left.
    pub fn next_arg(&mut self) -> (r: Option<&'a Arg>)
        ensures
            final(self).args == old(self).args,
            final(self).st() == ctx_next(old(self).args@, old(self).st()).0,
            match r {
                Some(a) => ctx_next(old(self).args@, old(self).st()).1 == Some(*a),
                None => ctx_next(old(self).args@, old(self).st()).1 is None,
            },
    {
        let args = self.args;
        if self.start_idx >= args.len() {
            return None;
        }
        let next = &args[self.start_idx];
        let c1 = if self.cur_arg_values_count < usize::MAX {
            self.cur_arg_values_count + 1
        } else {
            self.cur_arg_values_count
        };
        if next.max_values == c1 {
            self.start_idx = self.start_idx + 1;
            self.cur_arg_values_count = 0;
        } else {
            self.cur_arg_values_count = c1;
        }
        Some(next)
    }
}

/// Unrolling the cursor iteration from the other end: `k` calls are `k - 1`
/// calls followed by one more.
pub proof fn lemma_ctx_iter_snoc(args: Seq<Arg>, st: (int, int), k: nat)
    requires
        k >= 1,
    ensures
        ctx_iter(args, st, k) == ctx_next(args, ctx_iter(args, st, (k - 1) as nat)).0,
    decreases k,
{
    let st1 = ctx_next(args, st).0;
    if k == 1 {
        assert(ctx_iter(args, st, 1) == ctx_iter(args, st1, 0));
        assert(ctx_iter(args, st, 0) == st);
    } else {
        lemma_ctx_iter_snoc(args, st1, (k - 1) as nat);
        assert(ctx_iter(args, st, k) == ctx_iter(args, st1, (k - 1) as nat));
        assert(ctx_iter(args, st, (k - 1) as nat) == ctx_iter(args, st1, (k - 2) as nat));
    }
}

/// A slot with maximum repeat count `n` is handed out on each of its first
/// `k + 1` calls: starting the slot fresh, `k` calls leave the cursor at
/// count `k`, and the next call still yields the same slot.
pub proof fn lemma_next_arg_repeats(args: Seq<Arg>, j: int, k: nat)
    requires
        0 <= j < args.len(),
        1 <= args[j].max_values,
        k < args[j].max_values,
    ensures
        ctx_iter(args, (j, 0), k) == (j, k as int),
        ctx_next(args, ctx_iter(args, (j, 0), k)).1 == Some(args[j]),
    decreases k,
{
    if k == 0 {
    } else {
        lemma_next_arg_repeats(args, j, (k - 1) as nat);
        lemma_ctx_iter_snoc(args, (j, 0), k);
        assert(ctx_iter(args, (j, 0), k) == ctx_next(args, (j, k - 1)).0);
    }
}

/// The call that reaches a slot's maximum repeat count advances the cursor to
/// the next slot, with its count reset.
pub proof fn lemma_next_arg_advances(args: Seq<Arg>, j: int)
    requires
        0 <= j < args.len(),
        1 <= args[j].max_values,
    ensures
        ctx_next(args, (j, args[j].max_values - 1)).0 == (j + 1, 0int),
        ctx_next(args, (j, args[j].max_values - 1)).1 == Some(args[j]),
{
}

/// A cursor that hands out a slot has seen an argument from then on: the
/// state after a successful call always counts as seen, and a seen state
/// stays seen across further calls.
pub proof fn lemma_has_seen_arg(args: Seq<Arg>, st: (int, int))
    requires
        st.0 >= 0,
        st.1 >= 0,
    ensures
        ctx_next(args, st).1 is Some ==> ctx_has_seen(ctx_next(args, st).0),
        ctx_has_seen(st) ==> ctx_has_seen(ctx_next(args, st).0),
{
}

} // verus!

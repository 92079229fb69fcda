//! Naming helpers for generated schema sources: case conversions and the
//! nested id paths the generated enums use.

use vstd::prelude::*;

use crate::engine::CompleteWithEqual;
use crate::strutil;
use crate::strutil::{char_upper_of, lower_of, upper_of};

use super::{NameType, Trace};

verus! {

/// A help text with newlines and double quotes made safe for a string
/// literal.
pub open spec fn escape_spec(s: Seq<char>) -> Seq<char>
    decreases s.len(),
{
    if s.len() == 0 {
        Seq::empty()
    } else {
        (if s[0] == '\n' {
            seq![' ']
        } else if s[0] == '"' {
            seq!['\\', '"']
        } else {
            seq![s[0]]
        }) + escape_spec(s.skip(1))
    }
}

/// A help text with newlines replaced by spaces and double quotes escaped.
pub fn escape_help(help: &str) -> (r: String)
    ensures
        r@ == escape_spec(help@),
{
    let n = help.unicode_len();
    let mut out = String::new();
    let mut i: usize = 0;
    proof {
        assert(help@.skip(0) =~= help@);
    }
    while i < n
        invariant
            0 <= i <= n,
            n == help@.len(),
            out@ + escape_spec(help@.skip(i as int)) == escape_spec(help@),
        decreases n - i,
    {
        let c = help.get_char(i);
        let ghost pre = out@;
        if c == '\n' {
            strutil::push_char(&mut out, ' ');
        } else if c == '"' {
            strutil::push_char(&mut out, '\\');
            strutil::push_char(&mut out, '"');
        } else {
            strutil::push_char(&mut out, c);
        }
        proof {
            assert(help@.skip(i as int)[0] == help@[i as int]);
            assert(help@.skip(i as int).skip(1) =~= help@.skip(i as int + 1));
            assert(out@ + escape_spec(help@.skip(i as int + 1)) =~= pre + escape_spec(
                help@.skip(i as int),
            ));
        }
        i = i + 1;
    }
    proof {
        assert(escape_spec(help@.skip(n as int)) =~= Seq::<char>::empty());
        assert(out@ =~= out@ + escape_spec(help@.skip(n as int)));
    }
    out
}

/// Dashes turned into underscores.
pub open spec fn dash_under(s: Seq<char>) -> Seq<char> {
    s.map_values(
        |c: char| if c == '-' {
            '_'
        } else {
            c
        },
    )
}

/// Dashes turned into underscores, as executable code.
fn dash_under_exec(s: &str) -> (r: String)
    ensures
        r@ == dash_under(s@),
{
    let n = s.unicode_len();
    let mut out = String::new();
    let mut i: usize = 0;
    while i < n
        invariant
            0 <= i <= n,
            n == s@.len(),
            out@ =~= dash_under(s@).take(i as int),
        decreases n - i,
    {
        let c = s.get_char(i);
        let c2 = if c == '-' {
            '_'
        } else {
            c
        };
        strutil::push_char(&mut out, c2);
        proof {
            assert(dash_under(s@)[i as int] == c2);
            assert(out@ =~= dash_under(s@).take(i as int + 1));
        }
        i = i + 1;
    }
    proof {
        assert(dash_under(s@).take(n as int) =~= dash_under(s@));
    }
    out
}

/// An identifier in snake case: dashes become underscores, letters become
/// lowercase.
pub fn to_snake_case(s: &str) -> (r: String)
    ensures
        r@ == lower_of(dash_under(s@)),
{
    let replaced = dash_under_exec(s);
    strutil::to_lowercase(replaced.as_str())
}

/// An identifier in screaming snake case: dashes become underscores, letters
/// become uppercase.
pub fn to_screaming_snake_case(s: &str) -> (r: String)
    ensures
        r@ == upper_of(dash_under(s@)),
{
    let replaced = dash_under_exec(s);
    strutil::to_uppercase(replaced.as_str())
}

/// First position of `_` at or after `i`.
pub open spec fn find_us(s: Seq<char>, i: int) -> Option<int>
    decreases s.len() - i,
{
    if i < 0 || i >= s.len() {
        None
    } else if s[i] == '_' {
        Some(i)
    } else {
        find_us(s, i + 1)
    }
}

/// One snake-case segment capitalized: its first character uppercased, the
/// rest kept.
pub open spec fn seg_cap(seg: Seq<char>) -> Seq<char> {
    if seg.len() == 0 {
        Seq::empty()
    } else {
        char_upper_of(seg[0]) + seg.skip(1)
    }
}

/// A snake-case string in pascal case: each underscore-separated segment
/// capitalized, empty segments dropped.
pub open spec fn pascal_of(s: Seq<char>) -> Seq<char>
    decreases s.len(),
{
    if s.len() == 0 {
        Seq::empty()
    } else {
        match find_us(s, 0) {
            Some(p) => if 0 <= p < s.len() {
                seg_cap(s.take(p)) + pascal_of(s.skip(p + 1))
            } else {
                seg_cap(s)
            },
            None => seg_cap(s),
        }
    }
}

/// First `_` of a string, as executable code.
fn find_us_exec(s: &str, from: usize) -> (r: Option<usize>)
    requires
        from <= s@.len(),
    ensures
        match r {
            Some(p) => find_us(s@, from as int) == Some(p as int) && from <= p < s@.len(),
            None => find_us(s@, from as int) is None,
        },
{
    let n = s.unicode_len();
    let mut i = from;
    while i < n
        invariant
            from <= i <= n,
            n == s@.len(),
            find_us(s@, from as int) == find_us(s@, i as int),
        decreases n - i,
    {
        if s.get_char(i) == '_' {
            return Some(i);
        }
        i = i + 1;
    }
    None
}

/// Capitalize one segment of a string.
fn seg_cap_exec(s: &str, from: usize, to: usize, out: &mut String)
    requires
        from <= to <= s@.len(),
    ensures
        final(out)@ == old(out)@ + seg_cap(s@.subrange(from as int, to as int)),
{
    if from == to {
        proof {
            assert(seg_cap(s@.subrange(from as int, to as int)) =~= Seq::<char>::empty());
            assert(out@ =~= out@ + seg_cap(s@.subrange(from as int, to as int)));
        }
        return ;
    }
    let first = s.get_char(from);
    let up = strutil::char_upper(first);
    out.append(up.as_str());
    out.append(s.substring_char(from + 1, to));
    proof {
        let seg = s@.subrange(from as int, to as int);
        assert(seg[0] == s@[from as int]);
        assert(seg.skip(1) =~= s@.subrange(from as int + 1, to as int));
    }
}

/// An identifier in pascal case: snake case first, then each segment
/// capitalized.
pub fn to_pascal_case(s: &str) -> (r: String)
    ensures
        r@ == pascal_of(lower_of(dash_under(s@))),
{
    let snake = to_snake_case(s);
    let t = snake.as_str();
    let n = t.unicode_len();
    let mut out = String::new();
    let mut i: usize = 0;
    proof {
        assert(t@.skip(0) =~= t@);
    }
    while i < n
        invariant
            0 <= i <= n,
            n == t@.len(),
            out@ + pascal_of(t@.skip(i as int)) == pascal_of(t@),
        decreases n - i,
    {
        let ghost rest = t@.skip(i as int);
        let ghost pre = out@;
        match find_us_exec(t, i) {
            Some(p) => {
                proof {
                    lemma_find_us_bounds(t@, i as int);
                    assert(rest[p - i] == t@[p as int]);
                    assert forall|k: int| 0 <= k < p - i implies rest[k] != '_' by {
                        assert(rest[k] == t@[i + k]);
                    }
                    lemma_find_us_char(rest, p - i, 0);
                    assert(rest.take(p - i) =~= t@.subrange(i as int, p as int));
                    assert(rest.skip(p - i + 1) =~= t@.skip(p as int + 1));
                }
                seg_cap_exec(t, i, p, &mut out);
                i = p + 1;
            },
            None => {
                proof {
                    lemma_find_us_bounds(t@, i as int);
                    assert forall|k: int| 0 <= k < rest.len() implies rest[k] != '_' by {
                        assert(rest[k] == t@[i + k]);
                    }
                    lemma_find_us_none_char(rest, 0);
                    assert(rest =~= t@.subrange(i as int, n as int));
                }
                seg_cap_exec(t, i, n, &mut out);
                i = n;
                proof {
                    assert(pascal_of(t@.skip(n as int)) =~= Seq::<char>::empty());
                }
            },
        }
    }
    proof {
        assert(pascal_of(t@.skip(n as int)) =~= Seq::<char>::empty());
        assert(out@ =~= out@ + pascal_of(t@.skip(n as int)));
    }
    out
}

/// A position with an underscore and none before it is what the scan finds.
proof fn lemma_find_us_char(s: Seq<char>, p: int, i: int)
    requires
        0 <= i <= p < s.len(),
        s[p] == '_',
        forall|k: int| i <= k < p ==> s[k] != '_',
    ensures
        find_us(s, i) == Some(p),
    decreases p - i,
{
    if i < p {
        lemma_find_us_char(s, p, i + 1);
    }
}

/// A string without underscores scans to nothing.
proof fn lemma_find_us_none_char(s: Seq<char>, i: int)
    requires
        0 <= i,
        forall|k: int| i <= k < s.len() ==> s[k] != '_',
    ensures
        find_us(s, i) is None,
    decreases s.len() - i,
{
    if i < s.len() {
        lemma_find_us_none_char(s, i + 1);
    }
}

/// A found underscore is in bounds, and nothing before it is one.
proof fn lemma_find_us_bounds(s: Seq<char>, i: int)
    requires
        0 <= i,
    ensures
        match find_us(s, i) {
            Some(p) => i <= p < s.len() && s[p] == '_' && (forall|k: int|
                i <= k < p ==> s[k] != '_'),
            None => forall|k: int| i <= k < s.len() ==> s[k] != '_',
        },
    decreases s.len() - i,
{
    if i < s.len() {
        lemma_find_us_bounds(s, i + 1);
    }
}

/// The generated enum-variant name of a schema entry.
pub fn gen_enum_name(ty: NameType, name: &str) -> (r: String)
    ensures
        ty == NameType::External ==> r@ == ty.prefix_spec(),
        ty != NameType::External ==> r@ == ty.prefix_spec() + pascal_of(
            lower_of(dash_under(name@)),
        ),
{
    match ty {
        NameType::External => ty.prefix().to_owned(),
        _ => {
            let mut out = ty.prefix().to_owned();
            let pascal = to_pascal_case(name);
            out.append(pascal.as_str());
            out
        },
    }
}

/// The generated constant name of a schema entry.
pub fn gen_rust_name(ty: NameType, name: &str) -> (r: String)
    ensures
        name@.len() == 0 ==> r@ == upper_of(ty.prefix_spec()),
        name@.len() > 0 ==> r@ == upper_of(ty.prefix_spec()) + seq!['_'] + upper_of(
            dash_under(name@),
        ),
{
    let mut out = strutil::to_uppercase(ty.prefix());
    if !name.is_empty() {
        strutil::push_char(&mut out, '_');
        let screaming = to_screaming_snake_case(name);
        out.append(screaming.as_str());
    }
    out
}

/// Which `=`-completion policy a flag's shape calls for: an optional flag
/// without required equals is refused under strict generation, required
/// equals makes the policy `Must` or `Optional`, and everything else needs
/// no equals.
pub fn compute_flag_equal_enum(optional: bool, require_equals: bool, strict: bool) -> (r: Result<
    CompleteWithEqual,
    &'static str,
>)
    ensures
        !require_equals && optional && strict ==> r is Err,
        !require_equals && !(optional && strict) ==> r == Ok::<_, &'static str>(
            CompleteWithEqual::NoNeed,
        ),
        require_equals && optional ==> r == Ok::<_, &'static str>(CompleteWithEqual::Optional),
        require_equals && !optional ==> r == Ok::<_, &'static str>(CompleteWithEqual::Must),
{
    if !require_equals {
        if optional {
            if strict {
                return Err(
                    "an optional flag without required equals would swallow the next word; completion treats it as not optional",
                );
            }
        }
        return Ok(CompleteWithEqual::NoNeed);
    }
    if optional {
        Ok(CompleteWithEqual::Optional)
    } else {
        Ok(CompleteWithEqual::Must)
    }
}

/// The `=`-completion policy as the source text the generator writes.
pub fn compute_flag_equal(optional: bool, require_equals: bool, strict: bool) -> (r: Result<
    &'static str,
    &'static str,
>)
    ensures
        !require_equals && optional && strict ==> r is Err,
        !require_equals && !(optional && strict) ==> (r matches Ok(s) && s@
            == "CompleteWithEqual::NoNeed"@),
        require_equals && optional ==> (r matches Ok(s) && s@
            == "CompleteWithEqual::Optional"@),
        require_equals && !optional ==> (r matches Ok(s) && s@ == "CompleteWithEqual::Must"@),
{
    let e = match compute_flag_equal_enum(optional, require_equals, strict) {
        Ok(e) => e,
        Err(msg) => {
            return Err(msg);
        },
    };
    let s = match e {
        CompleteWithEqual::Optional => "CompleteWithEqual::Optional",
        CompleteWithEqual::Must => "CompleteWithEqual::Must",
        CompleteWithEqual::NoNeed => "CompleteWithEqual::NoNeed",
    };
    Ok(s)
}

} // verus!

verus! {

/// `n` repetitions of the `super::` path step.
pub open spec fn supers(n: nat) -> Seq<char>
    decreases n,
{
    if n == 0 {
        Seq::empty()
    } else {
        "super::"@ + supers((n - 1) as nat)
    }
}

/// The generated enum-variant name, as a sequence.
pub open spec fn enum_name_spec(ty: NameType, name: Seq<char>) -> Seq<char> {
    if ty == NameType::External {
        ty.prefix_spec()
    } else {
        ty.prefix_spec() + pascal_of(lower_of(dash_under(name)))
    }
}

/// The opening part of a nested id path: one `super::`-qualified command
/// wrapper per level already walked.
pub open spec fn id_open(prev: Seq<Seq<char>>, j: int) -> Seq<char>
    decreases prev.len() - j,
{
    if j < 0 || j >= prev.len() {
        Seq::empty()
    } else {
        supers((prev.len() - j) as nat) + "ID::"@ + enum_name_spec(NameType::Command, prev[j])
            + seq!['('] + id_open(prev, j + 1)
    }
}

/// `n` closing parentheses.
pub open spec fn closers(n: nat) -> Seq<char>
    decreases n,
{
    if n == 0 {
        Seq::empty()
    } else {
        seq![')'] + closers((n - 1) as nat)
    }
}

/// The names along the walked path.
pub open spec fn trace_names(prev: Seq<super::Trace>) -> Seq<Seq<char>> {
    prev.map_values(|t: super::Trace| t.cmd_id@)
}

/// The full nested id path.
pub open spec fn id_value_spec(prev: Seq<Seq<char>>, ty: NameType, id: Seq<char>) -> Seq<char> {
    id_open(prev, 0) + "ID::"@ + enum_name_spec(ty, id) + closers(prev.len() as nat)
}

/// Append `n` repetitions of `super::`.
fn push_supers(out: &mut String, n: usize)
    ensures
        final(out)@ == old(out)@ + supers(n as nat),
{
    let mut k: usize = 0;
    proof {
        assert(out@ + supers(0) =~= out@);
    }
    while k < n
        invariant
            0 <= k <= n,
            out@ == old(out)@ + supers(k as nat),
        decreases n - k,
    {
        out.append("super::");
        proof {
            assert(supers(k as nat + 1) =~= supers(k as nat) + ("super::")@) by {
                lemma_supers_snoc(k as nat);
            }
            assert(out@ =~= old(out)@ + supers((k + 1) as nat));
        }
        k = k + 1;
    }
}

/// Adding one step of `super::` on either side is the same.
proof fn lemma_supers_snoc(n: nat)
    ensures
        supers(n + 1) == supers(n) + ("super::")@,
    decreases n,
{
    if n == 0 {
        assert(supers(1) =~= ("super::")@ + supers(0));
        assert(supers(0) + ("super::")@ =~= ("super::")@);
        assert(("super::")@ + supers(0) =~= ("super::")@);
    } else {
        lemma_supers_snoc((n - 1) as nat);
        assert(supers(n + 1) == ("super::")@ + supers(n));
        assert(supers(n) + ("super::")@ =~= ("super::")@ + (supers((n - 1) as nat) + (
        "super::")@));
    }
}

/// The generated enum-variant name, appended to the output.
fn push_enum_name(out: &mut String, ty: NameType, name: &str)
    ensures
        final(out)@ == old(out)@ + enum_name_spec(ty, name@),
{
    let n = gen_enum_name(ty, name);
    out.append(n.as_str());
}

/// The nested id path of a schema entry, as the generated source writes it:
/// each walked command level wraps the inner id in its own enum variant,
/// qualified with one more `super::`.
pub fn get_id_value(prev: &[Trace], ty: NameType, id: &str) -> (r: String)
    ensures
        r@ == id_value_spec(trace_names(prev@), ty, id@),
{
    let ghost names = trace_names(prev@);
    let total = prev.len();
    let mut out = String::new();
    let mut j: usize = 0;
    proof {
        assert(out@ =~= Seq::<char>::empty());
    }
    while j < total
        invariant
            0 <= j <= total,
            total == prev@.len(),
            names == trace_names(prev@),
            out@ + id_open(names, j as int) == id_open(names, 0),
        decreases total - j,
    {
        proof {
            assert(names[j as int] == prev@[j as int].cmd_id@);
        }
        let ghost pre = out@;
        push_supers(&mut out, total - j);
        out.append("ID::");
        push_enum_name(&mut out, NameType::Command, prev[j].cmd_id.as_str());
        crate::strutil::push_char(&mut out, '(');
        proof {
            assert(out@ =~= pre + (supers((total - j) as nat) + ("ID::")@ + enum_name_spec(
                NameType::Command,
                names[j as int],
            ) + seq!['(']));
            assert(out@ + id_open(names, j as int + 1) =~= pre + id_open(names, j as int));
        }
        j = j + 1;
    }
    proof {
        assert(id_open(names, total as int) =~= Seq::<char>::empty());
        assert(out@ =~= id_open(names, 0));
    }
    out.append("ID::");
    push_enum_name(&mut out, ty, id);
    let mut k: usize = 0;
    let ghost mid = id_open(names, 0) + ("ID::")@ + enum_name_spec(ty, id@);
    proof {
        assert(out@ =~= mid);
        assert(out@ + closers(0) =~= out@);
    }
    while k < total
        invariant
            0 <= k <= total,
            out@ == mid + closers(k as nat),
        decreases total - k,
    {
        crate::strutil::push_char(&mut out, ')');
        proof {
            assert(closers(k as nat + 1) =~= closers(k as nat) + seq![')']) by {
                lemma_closers_snoc(k as nat);
            }
            assert(out@ =~= mid + closers((k + 1) as nat));
        }
        k = k + 1;
    }
    out
}

/// Adding one closing parenthesis on either side is the same.
proof fn lemma_closers_snoc(n: nat)
    ensures
        closers(n + 1) == closers(n) + seq![')'],
    decreases n,
{
    if n == 0 {
        assert(closers(1) =~= seq![')'] + closers(0));
        assert(closers(0) + seq![')'] =~= seq![')']);
        assert(seq![')'] + closers(0) =~= seq![')']);
    } else {
        lemma_closers_snoc((n - 1) as nat);
        assert(closers(n + 1) == seq![')'] + closers(n));
        assert(closers(n) + seq![')'] =~= seq![')'] + (closers((n - 1) as nat) + seq![')']));
    }
}

} // verus!

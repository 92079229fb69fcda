//! The token classifier: one raw shell word is classified into a small closed
//! set of shapes (empty, bare dashes, long flag, short flag cluster, plain
//! value), without any knowledge of the schema.

use vstd::prelude::*;

verus! {

/// Why a dash-prefixed token is not a well-formed flag.
#[derive(Debug, Eq, PartialEq, Structural, Clone, Copy)]
pub enum Error {
    DashNotAllowed,
    ConsecutiveDashes,
    TooManyEquals,
}

/// The shape of one token.  `Long`, `Short` and `MultiShort` borrow slices of
/// the original token instead of copying it.
#[derive(Debug, Clone, Copy)]
pub enum ParsedFlag<'a> {
    Empty,
    SingleDash,
    DoubleDash,
    Short { body: char, equal: Option<&'a str> },
    MultiShort { body: &'a str, equal: Option<&'a str> },
    Long { body: &'a str, equal: Option<&'a str> },
    NotFlag,
    Error(Error),
}

/// Mathematical model of a token's shape, over character sequences.
pub enum TokenShape {
    Empty,
    SingleDash,
    DoubleDash,
    Short { body: char, equal: Option<Seq<char>> },
    MultiShort { body: Seq<char>, equal: Option<Seq<char>> },
    Long { body: Seq<char>, equal: Option<Seq<char>> },
    NotFlag,
    Invalid(Error),
}

impl<'a> View for ParsedFlag<'a> {
    type V = TokenShape;

    open spec fn view(&self) -> TokenShape {
        match self {
            ParsedFlag::Empty => TokenShape::Empty,
            ParsedFlag::SingleDash => TokenShape::SingleDash,
            ParsedFlag::DoubleDash => TokenShape::DoubleDash,
            ParsedFlag::Short { body, equal } => TokenShape::Short {
                body: *body,
                equal: match equal {
                    Some(e) => Some(e@),
                    None => None,
                },
            },
            ParsedFlag::MultiShort { body, equal } => TokenShape::MultiShort {
                body: body@,
                equal: match equal {
                    Some(e) => Some(e@),
                    None => None,
                },
            },
            ParsedFlag::Long { body, equal } => TokenShape::Long {
                body: body@,
                equal: match equal {
                    Some(e) => Some(e@),
                    None => None,
                },
            },
            ParsedFlag::NotFlag => TokenShape::NotFlag,
            ParsedFlag::Error(e) => TokenShape::Invalid(*e),
        }
    }
}

/// Position of the first `=` in `s` at or after index `i`.
pub open spec fn find_eq(s: Seq<char>, i: int) -> Option<int>
    decreases s.len() - i,
{
    if i < 0 || i >= s.len() {
        None
    } else if s[i] == '=' {
        Some(i)
    } else {
        find_eq(s, i + 1)
    }
}

/// Scan of a dash-prefixed token from index `i`: the first malformation found,
/// if any.  `last_dash` and `eq_seen` carry the scan state; `allow_dash` is
/// true for long flags, whose bodies may contain single dashes.
pub open spec fn scan_valid(
    s: Seq<char>,
    i: int,
    last_dash: bool,
    eq_seen: bool,
    allow_dash: bool,
) -> Option<Error>
    decreases s.len() - i,
{
    if i < 0 || i >= s.len() {
        None
    } else if s[i] == '-' {
        if !allow_dash {
            Some(Error::DashNotAllowed)
        } else if last_dash {
            Some(Error::ConsecutiveDashes)
        } else {
            scan_valid(s, i + 1, true, eq_seen, allow_dash)
        }
    } else if s[i] == '=' {
        if eq_seen {
            Some(Error::TooManyEquals)
        } else {
            scan_valid(s, i + 1, false, true, allow_dash)
        }
    } else {
        scan_valid(s, i + 1, false, eq_seen, allow_dash)
    }
}

/// The shape of a token, in full: the specification of `ParsedFlag::new`.
pub open spec fn classify(s: Seq<char>) -> TokenShape {
    if s.len() == 0 {
        TokenShape::Empty
    } else if s[0] != '-' {
        TokenShape::NotFlag
    } else if s.len() == 1 {
        TokenShape::SingleDash
    } else if s[1] == '-' {
        if s.len() == 2 {
            TokenShape::DoubleDash
        } else {
            match scan_valid(s, 1, false, false, true) {
                Some(e) => TokenShape::Invalid(e),
                None => {
                    let rest = s.subrange(2, s.len() as int);
                    match find_eq(rest, 0) {
                        Some(p) => TokenShape::Long {
                            body: rest.subrange(0, p),
                            equal: Some(rest.subrange(p + 1, rest.len() as int)),
                        },
                        None => TokenShape::Long { body: rest, equal: None },
                    }
                },
            }
        }
    } else {
        match scan_valid(s, 1, false, false, false) {
            Some(e) => TokenShape::Invalid(e),
            None => {
                let fp = s.subrange(1, s.len() as int);
                if fp.len() == 1 {
                    TokenShape::Short { body: fp[0], equal: None }
                } else {
                    match find_eq(fp, 0) {
                        Some(p) => {
                            if p == 1 {
                                TokenShape::Short {
                                    body: fp[0],
                                    equal: Some(fp.subrange(2, fp.len() as int)),
                                }
                            } else {
                                TokenShape::MultiShort {
                                    body: fp.subrange(0, p),
                                    equal: Some(fp.subrange(p + 1, fp.len() as int)),
                                }
                            }
                        },
                        None => TokenShape::MultiShort { body: fp, equal: None },
                    }
                }
            },
        }
    }
}

/// First `=` in `t`, as executable code.
fn find_eq_exec(t: &str) -> (r: Option<usize>)
    ensures
        match r {
            Some(p) => find_eq(t@, 0) == Some(p as int) && p < t@.len() && t@[p as int] == '=',
            None => find_eq(t@, 0) is None,
        },
{
    let n = t.unicode_len();
    let mut i: usize = 0;
    while i < n
        invariant
            0 <= i <= n,
            n == t@.len(),
            find_eq(t@, 0) == find_eq(t@, i as int),
        decreases n - i,
    {
        if t.get_char(i) == '=' {
            return Some(i);
        }
        i = i + 1;
    }
    None
}

impl<'a> ParsedFlag<'a> {
    /// Scan a dash-prefixed token (past its first character) for malformations.
    pub fn is_valid_flag(s: &str, allow_single_dash: bool) -> (r: Option<Error>)
        ensures
            r == scan_valid(s@, 1, false, false, allow_single_dash),
    {
        let n = s.unicode_len();
        if n <= 1 {
            return None;
        }
        let mut i: usize = 1;
        let mut last_is_dash = false;
        let mut equal_appeared = false;
        while i < n
            invariant
                1 <= i <= n,
                n == s@.len(),
                scan_valid(s@, 1, false, false, allow_single_dash) == scan_valid(
                    s@,
                    i as int,
                    last_is_dash,
                    equal_appeared,
                    allow_single_dash,
                ),
            decreases n - i,
        {
            let ch = s.get_char(i);
            if ch == '-' {
                if !allow_single_dash {
                    return Some(Error::DashNotAllowed);
                }
                if last_is_dash {
                    return Some(Error::ConsecutiveDashes);
                }
                last_is_dash = true;
            } else {
                last_is_dash = false;
                if ch == '=' {
                    if equal_appeared {
                        return Some(Error::TooManyEquals);
                    }
                    equal_appeared = true;
                }
            }
            i = i + 1;
        }
        None
    }

    /// Classify one token.
    pub fn new(s: &'a str) -> (r: Self)
        ensures
            r@ == classify(s@),
    {
        let n = s.unicode_len();
        if n == 0 {
            return Self::Empty;
        }
        if s.get_char(0) != '-' {
            return Self::NotFlag;
        }
        if n == 1 {
            return Self::SingleDash;
        }
        if s.get_char(1) == '-' {
            if n == 2 {
                return Self::DoubleDash;
            }
            if let Some(err) = Self::is_valid_flag(s, true) {
                return Self::Error(err);
            }
            let flag_part = s.substring_char(2, n);
            let m = flag_part.unicode_len();
            match find_eq_exec(flag_part) {
                Some(p) => Self::Long {
                    body: flag_part.substring_char(0, p),
                    equal: Some(flag_part.substring_char(p + 1, m)),
                },
                None => Self::Long { body: flag_part, equal: None },
            }
        } else {
            if let Some(err) = Self::is_valid_flag(s, false) {
                return Self::Error(err);
            }
            let flag_part = s.substring_char(1, n);
            let m = flag_part.unicode_len();
            if m == 1 {
                return Self::Short { body: flag_part.get_char(0), equal: None };
            }
            match find_eq_exec(flag_part) {
                Some(p) => {
                    if p == 1 {
                        Self::Short {
                            body: flag_part.get_char(0),
                            equal: Some(flag_part.substring_char(2, m)),
                        }
                    } else {
                        Self::MultiShort {
                            body: flag_part.substring_char(0, p),
                            equal: Some(flag_part.substring_char(p + 1, m)),
                        }
                    }
                },
                None => Self::MultiShort { body: flag_part, equal: None },
            }
        }
    }
}

impl<'a> PartialEq for ParsedFlag<'a> {
    fn eq(&self, other: &Self) -> (r: bool) {
        match (self, other) {
            (ParsedFlag::Empty, ParsedFlag::Empty) => true,
            (ParsedFlag::SingleDash, ParsedFlag::SingleDash) => true,
            (ParsedFlag::DoubleDash, ParsedFlag::DoubleDash) => true,
            (ParsedFlag::NotFlag, ParsedFlag::NotFlag) => true,
            (ParsedFlag::Error(a), ParsedFlag::Error(b)) => a == b,
            (
                ParsedFlag::Short { body: b1, equal: e1 },
                ParsedFlag::Short { body: b2, equal: e2 },
            ) => *b1 == *b2 && opt_str_eq(e1, e2),
            (
                ParsedFlag::MultiShort { body: b1, equal: e1 },
                ParsedFlag::MultiShort { body: b2, equal: e2 },
            ) => crate::strutil::str_eq(b1, b2) && opt_str_eq(e1, e2),
            (
                ParsedFlag::Long { body: b1, equal: e1 },
                ParsedFlag::Long { body: b2, equal: e2 },
            ) => crate::strutil::str_eq(b1, b2) && opt_str_eq(e1, e2),
            _ => false,
        }
    }
}

impl<'a> vstd::std_specs::cmp::PartialEqSpecImpl for ParsedFlag<'a> {
    open spec fn obeys_eq_spec() -> bool {
        true
    }

    open spec fn eq_spec(&self, other: &Self) -> bool {
        self@ == other@
    }
}

/// Equality of two optional string slices, by contents.
fn opt_str_eq(a: &Option<&str>, b: &Option<&str>) -> (r: bool)
    ensures
        r == match (a, b) {
            (Some(x), Some(y)) => x@ == y@,
            (None, None) => true,
            _ => false,
        },
{
    match (a, b) {
        (Some(x), Some(y)) => crate::strutil::str_eq(x, y),
        (None, None) => true,
        _ => false,
    }
}

} // verus!

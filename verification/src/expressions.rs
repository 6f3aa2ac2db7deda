//! Reading computed-column expressions: term signs and kinds, parentheses
//! that wrap a whole expression, the split into top-level additive terms, and
//! operator precedence.
use vstd::prelude::*;
use crate::text::{chars_of, copy_range, string_of, trim_chars, trim_spec, trimmed_chars};

verus! {

/// The sign in front of one additive term.
#[derive(Clone, Copy, Debug, PartialEq, Eq, Structural)]
pub enum ComputedColumnTermSign {
    Add,
    Subtract,
}

impl Default for ComputedColumnTermSign {
    fn default() -> (r: Self)
        ensures
            r == ComputedColumnTermSign::Add,
    {
        ComputedColumnTermSign::Add
    }
}

impl ComputedColumnTermSign {
    pub fn label(self) -> (r: &'static str)
        ensures
            r@ == (match self {
                ComputedColumnTermSign::Add => "+"@,
                ComputedColumnTermSign::Subtract => "-"@,
            }),
    {
        match self {
            ComputedColumnTermSign::Add => "+",
            ComputedColumnTermSign::Subtract => "-",
        }
    }
}

/// Whether a term is a column (times a coefficient) or a constant.
#[derive(Clone, Copy, Debug, PartialEq, Eq, Structural)]
pub enum ComputedColumnTermKind {
    Column,
    Constant,
}

impl Default for ComputedColumnTermKind {
    fn default() -> (r: Self)
        ensures
            r == ComputedColumnTermKind::Column,
    {
        ComputedColumnTermKind::Column
    }
}

impl ComputedColumnTermKind {
    pub fn label(self) -> (r: &'static str)
        ensures
            r@ == (match self {
                ComputedColumnTermKind::Column => "Column"@,
                ComputedColumnTermKind::Constant => "Constant"@,
            }),
    {
        match self {
            ComputedColumnTermKind::Column => "Column",
            ComputedColumnTermKind::Constant => "Constant",
        }
    }
}

/// Where a coefficient comes from: a literal value, a variable or a column.
#[derive(Clone, Copy, Debug, PartialEq, Eq, Structural)]
pub enum ComputedColumnValueKind {
    Literal,
    Variable,
    Column,
}

impl Default for ComputedColumnValueKind {
    fn default() -> (r: Self)
        ensures
            r == ComputedColumnValueKind::Literal,
    {
        ComputedColumnValueKind::Literal
    }
}

impl ComputedColumnValueKind {
    pub fn label(self) -> (r: &'static str)
        ensures
            r@ == (match self {
                ComputedColumnValueKind::Literal => "Value"@,
                ComputedColumnValueKind::Variable => "Variable"@,
                ComputedColumnValueKind::Column => "Column"@,
            }),
    {
        match self {
            ComputedColumnValueKind::Literal => "Value",
            ComputedColumnValueKind::Variable => "Variable",
            ComputedColumnValueKind::Column => "Column",
        }
    }
}

/// `depth` after reading a `)`: one less, but never below zero.
pub open spec fn close_depth(depth: nat) -> nat {
    if depth > 0 {
        (depth - 1) as nat
    } else {
        0
    }
}

/// Reading `t` from index `i` with `depth` open parentheses, no `)` brings the
/// depth to zero before the last character, and the depth is zero at the end.
pub open spec fn scan_wraps(t: Seq<char>, i: int, depth: nat) -> bool
    decreases t.len() - i,
{
    if i < 0 || i >= t.len() {
        depth == 0
    } else if t[i] == '(' {
        scan_wraps(t, i + 1, depth + 1)
    } else if t[i] == ')' {
        if close_depth(depth) == 0 && i + 1 < t.len() {
            false
        } else {
            scan_wraps(t, i + 1, close_depth(depth))
        }
    } else {
        scan_wraps(t, i + 1, depth)
    }
}

/// `t` starts with `(`, ends with `)`, and that first parenthesis encloses all of it.
pub open spec fn wrapped_whole(t: Seq<char>) -> bool {
    t.len() > 0 && t[0] == '(' && t[t.len() - 1] == ')' && scan_wraps(t, 0, 0)
}

/// Trimming never lengthens a string.
pub proof fn lemma_trim_len(s: Seq<char>)
    ensures
        trim_spec(s).len() <= s.len(),
{
    let p = |c: char| crate::text::is_white_space_spec(c);
    crate::text::lemma_skip_from_bounds(s, p, 0);
    let lo = crate::text::skip_from(s, p, 0);
    crate::text::lemma_skip_back_bounds(s, p, lo, s.len() as int);
}

/// `t` with wrapping parentheses removed, again and again, trimming each time.
pub open spec fn unwrap_parens(t: Seq<char>) -> Seq<char>
    decreases t.len(),
{
    if wrapped_whole(t) && t.len() >= 2 {
        proof {
            lemma_trim_len(t.subrange(1, t.len() - 1));
        }
        unwrap_parens(trim_spec(t.subrange(1, t.len() - 1)))
    } else {
        t
    }
}

/// The trimmed expression with every pair of parentheses that wraps all of it removed.
pub open spec fn trim_wrapping_parentheses_spec(expression: Seq<char>) -> Seq<char> {
    unwrap_parens(trim_spec(expression))
}

fn wraps_whole(t: &Vec<char>) -> (r: bool)
    ensures
        r == wrapped_whole(t@),
{
    let n = t.len();
    if n == 0 || t[0] != '(' || t[n - 1] != ')' {
        return false;
    }
    let mut depth: usize = 0;
    let mut i: usize = 0;
    while i < n
        invariant
            i <= n == t.len(),
            depth <= i,
            scan_wraps(t@, i as int, depth as nat) == scan_wraps(t@, 0, 0),
        decreases n - i,
    {
        let c = t[i];
        if c == '(' {
            depth += 1;
        } else if c == ')' {
            depth = if depth > 0 { depth - 1 } else { 0 };
            if depth == 0 && i + 1 < n {
                return false;
            }
        }
        i += 1;
    }
    depth == 0
}

/// Removes every pair of parentheses that wraps the whole (trimmed) expression.
pub fn trim_wrapping_parentheses(expression: &str) -> (r: String)
    ensures
        r@ == trim_wrapping_parentheses_spec(expression@),
{
    let mut t = trimmed_chars(expression);
    loop
        invariant
            unwrap_parens(t@) == trim_wrapping_parentheses_spec(expression@),
        decreases t@.len(),
    {
        if !wraps_whole(&t) {
            return string_of(&t);
        }
        let n = t.len();
        assert(n >= 2) by {
            if n == 1 {
                assert(t@[0] == '(' && t@[0] == ')');
            }
        }
        let inner = copy_range(&t, 1, n - 1);
        proof {
            lemma_trim_len(inner@);
        }
        t = trim_chars(&inner);
    }
}

/// The sign written by `c` (`+` or `-`).
pub open spec fn sign_of(c: char) -> ComputedColumnTermSign {
    if c == '+' {
        ComputedColumnTermSign::Add
    } else {
        ComputedColumnTermSign::Subtract
    }
}

/// The term from `start` to `end`, trimmed, as a one-element list, or nothing
/// when it is blank.
pub open spec fn term_if_any(
    e: Seq<char>,
    start: int,
    end: int,
    sign: ComputedColumnTermSign,
) -> Seq<(ComputedColumnTermSign, Seq<char>)> {
    let term = trim_spec(e.subrange(start, end));
    if term.len() > 0 {
        seq![(sign, term)]
    } else {
        Seq::empty()
    }
}

/// The terms of `e` from index `i` on, where the current term started at
/// `start` with `sign` and `depth` parentheses are open: a `+` or `-` outside
/// parentheses ends a term and gives the sign of the next.
pub open spec fn split_from(
    e: Seq<char>,
    i: int,
    depth: nat,
    start: int,
    sign: ComputedColumnTermSign,
) -> Seq<(ComputedColumnTermSign, Seq<char>)>
    decreases e.len() - i,
{
    if i < 0 || i >= e.len() {
        term_if_any(e, start, e.len() as int, sign)
    } else if e[i] == '(' {
        split_from(e, i + 1, depth + 1, start, sign)
    } else if e[i] == ')' {
        split_from(e, i + 1, close_depth(depth), start, sign)
    } else if (e[i] == '+' || e[i] == '-') && depth == 0 {
        term_if_any(e, start, i, sign) + split_from(e, i + 1, depth, i + 1, sign_of(e[i]))
    } else {
        split_from(e, i + 1, depth, start, sign)
    }
}

/// The top-level additive terms of `expression`, each with its sign; a leading
/// `+` or `-` gives the sign of the first term.
pub open spec fn split_terms_spec(expression: Seq<char>) -> Seq<(ComputedColumnTermSign, Seq<char>)> {
    let e = trim_spec(expression);
    if e.len() == 0 {
        Seq::empty()
    } else if e[0] == '+' || e[0] == '-' {
        split_from(e, 1, 0, 1, sign_of(e[0]))
    } else {
        split_from(e, 0, 0, 0, ComputedColumnTermSign::Add)
    }
}

/// The view of a list of signed terms.
pub open spec fn terms_view(
    terms: Seq<(ComputedColumnTermSign, String)>,
) -> Seq<(ComputedColumnTermSign, Seq<char>)> {
    terms.map_values(|t: (ComputedColumnTermSign, String)| (t.0, t.1@))
}

fn push_term_if_any(
    out: &mut Vec<(ComputedColumnTermSign, String)>,
    e: &Vec<char>,
    start: usize,
    end: usize,
    sign: ComputedColumnTermSign,
)
    requires
        start <= end <= e.len(),
    ensures
        terms_view(final(out)@) == terms_view(old(out)@) + term_if_any(e@, start as int, end as int, sign),
{
    let piece = copy_range(e, start, end);
    let term = trim_chars(&piece);
    let ghost before = old(out)@;
    if term.len() > 0 {
        out.push((sign, string_of(&term)));
        assert(terms_view(out@) =~= terms_view(before) + seq![(sign, term@)]);
    } else {
        assert(terms_view(out@) =~= terms_view(before) + Seq::empty());
    }
}

/// Splits an expression into its top-level additive terms; see `split_terms_spec`.
pub fn split_top_level_additive_terms(expression: &str) -> (r: Vec<(ComputedColumnTermSign, String)>)
    ensures
        terms_view(r@) == split_terms_spec(expression@),
{
    let e = trimmed_chars(expression);
    let n = e.len();
    let mut terms: Vec<(ComputedColumnTermSign, String)> = Vec::new();
    if n == 0 {
        assert(terms_view(terms@) =~= Seq::empty());
        return terms;
    }
    let mut sign = ComputedColumnTermSign::Add;
    let mut i: usize = 0;
    if e[0] == '+' || e[0] == '-' {
        sign = if e[0] == '+' { ComputedColumnTermSign::Add } else { ComputedColumnTermSign::Subtract };
        i = 1;
    }
    let mut start: usize = i;
    let mut depth: usize = 0;
    assert(terms_view(terms@) =~= Seq::empty());
    while i < n
        invariant
            start <= i <= n == e.len(),
            depth <= i,
            terms_view(terms@) + split_from(e@, i as int, depth as nat, start as int, sign)
                == split_terms_spec(expression@),
        decreases n - i,
    {
        let c = e[i];
        if c == '(' {
            depth += 1;
        } else if c == ')' {
            depth = if depth > 0 { depth - 1 } else { 0 };
        } else if (c == '+' || c == '-') && depth == 0 {
            let ghost before = terms_view(terms@);
            let ghost next_sign = sign_of(c);
            push_term_if_any(&mut terms, &e, start, i, sign);
            assert(terms_view(terms@) + split_from(e@, i + 1, 0, i + 1, next_sign)
                =~= before + (term_if_any(e@, start as int, i as int, sign)
                + split_from(e@, i + 1, 0, i + 1, next_sign)));
            sign = if c == '+' { ComputedColumnTermSign::Add } else { ComputedColumnTermSign::Subtract };
            start = i + 1;
        }
        i += 1;
    }
    let ghost before = terms_view(terms@);
    push_term_if_any(&mut terms, &e, start, n, sign);
    terms
}

/// How tightly an operator binds: `+ -` 1, `* /` 2, `**` 3, anything else 0.
pub open spec fn precedence_spec(op: Seq<char>) -> i32 {
    if op == seq!['+'] || op == seq!['-'] {
        1
    } else if op == seq!['*'] || op == seq!['/'] {
        2
    } else if op == seq!['*', '*'] {
        3
    } else {
        0
    }
}

/// The precedence of an operator token.
pub fn precedence(op: &str) -> (r: i32)
    ensures
        r == precedence_spec(op@),
{
    let v = chars_of(op);
    if v.len() == 1 && (v[0] == '+' || v[0] == '-') {
        assert(v@ =~= seq![v@[0]]);
        1
    } else if v.len() == 1 && (v[0] == '*' || v[0] == '/') {
        assert(v@ =~= seq![v@[0]]);
        2
    } else if v.len() == 2 && v[0] == '*' && v[1] == '*' {
        assert(v@ =~= seq!['*', '*']);
        3
    } else {
        0
    }
}

/// Whether an operator token groups from the left (`+ - * /`; `**` does not).
pub fn is_left_associative(op: &str) -> (r: bool)
    ensures
        r == (op@ == seq!['+'] || op@ == seq!['-'] || op@ == seq!['*'] || op@ == seq!['/']),
{
    let v = chars_of(op);
    if v.len() == 1 && (v[0] == '+' || v[0] == '-' || v[0] == '*' || v[0] == '/') {
        assert(v@ =~= seq![v@[0]]);
        true
    } else {
        false
    }
}

} // verus!

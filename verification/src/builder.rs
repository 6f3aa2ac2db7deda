//! The term-by-term form of a computed column that the column editor works
//! on: reading a simple expression (a sum of constants and coefficient times
//! column terms) into terms. Numbers are kept as the text that was written.
use vstd::prelude::*;
use crate::computed::{identifier_pattern_match, matches_identifier_pattern};
use crate::expressions::{
    split_terms_spec, split_top_level_additive_terms, terms_view, trim_wrapping_parentheses,
    trim_wrapping_parentheses_spec, ComputedColumnTermKind, ComputedColumnTermSign, ComputedColumnValueKind,
};
use crate::float_literal::{check_float_literal, is_float_literal};
use crate::names::{contains_string, names_view};
use crate::text::{chars_of, string_of, trim_spec, trimmed_chars};

verus! {

/// Whether `text` matches the number pattern
/// `^[+-]?(?:\d+(?:\.\d*)?|\.\d+)(?:[eE][+-]?\d+)?$` of the `regex` crate.
pub uninterp spec fn number_pattern_match(text: Seq<char>) -> bool;

/// What the coefficient-times-column pattern of the `regex` crate captures in
/// `text`: the coefficient, the column and, when written, the power.
pub uninterp spec fn coefficient_column_capture(text: Seq<char>) -> Option<(Seq<char>, Seq<char>, Option<Seq<char>>)>;

/// What the column-term pattern of the `regex` crate captures in `text`: the
/// column and, when written, the power.
pub uninterp spec fn column_term_capture(text: Seq<char>) -> Option<(Seq<char>, Option<Seq<char>>)>;

/// Tests `text` against the number pattern with the `regex` crate
/// (`Regex::is_match`). The contract names the result and says nothing more.
#[verifier::external_body]
fn matches_number_pattern(text: &str) -> (r: bool)
    ensures
        r == number_pattern_match(text@),
{
    let number_re = regex::Regex::new(r"^[+-]?(?:\d+(?:\.\d*)?|\.\d+)(?:[eE][+-]?\d+)?$")
        .expect("failed to create computed-column number regex");
    number_re.is_match(text)
}

/// Matches `text` against the pattern
/// `^(?P<coeff>[A-Za-z_]\w*|<number>)\s*\*\s*(?P<column>[A-Za-z_]\w*)(?:\s*\*\*\s*(?P<power><number>))?$`
/// with the `regex` crate (`Regex::captures`). The contract names the result
/// and says nothing more of it.
#[verifier::external_body]
fn capture_coefficient_column(text: &str) -> (r: Option<(String, String, Option<String>)>)
    ensures
        match r {
            Some((c, col, p)) => coefficient_column_capture(text@) == Some(
                (c@, col@, match p { Some(x) => Some(x@), None => None }),
            ),
            None => coefficient_column_capture(text@) is None,
        },
{
    let number_pattern = r"[+-]?(?:\d+(?:\.\d*)?|\.\d+)(?:[eE][+-]?\d+)?";
    let re = regex::Regex::new(&format!(
        r"^(?P<coeff>[A-Za-z_]\w*|{number_pattern})\s*\*\s*(?P<column>[A-Za-z_]\w*)(?:\s*\*\*\s*(?P<power>{number_pattern}))?$"
    )).expect("failed to create coefficient-times-column regex");
    match re.captures(text) {
        Some(caps) => {
            let power = match caps.name("power") {
                Some(p) => Some(p.as_str().to_owned()),
                None => None,
            };
            Some((caps["coeff"].to_owned(), caps["column"].to_owned(), power))
        },
        None => None,
    }
}

/// Matches `text` against the pattern
/// `^(?P<column>[A-Za-z_]\w*)(?:\s*\*\*\s*(?P<power><number>))?$` with the
/// `regex` crate (`Regex::captures`). The contract names the result and says
/// nothing more of it.
#[verifier::external_body]
fn capture_column_term(text: &str) -> (r: Option<(String, Option<String>)>)
    ensures
        match r {
            Some((col, p)) => column_term_capture(text@) == Some((col@, match p { Some(x) => Some(x@), None => None })),
            None => column_term_capture(text@) is None,
        },
{
    let number_pattern = r"[+-]?(?:\d+(?:\.\d*)?|\.\d+)(?:[eE][+-]?\d+)?";
    let re = regex::Regex::new(&format!(r"^(?P<column>[A-Za-z_]\w*)(?:\s*\*\*\s*(?P<power>{number_pattern}))?$"))
        .expect("failed to create column-term regex");
    match re.captures(text) {
        Some(caps) => {
            let power = match caps.name("power") {
                Some(p) => Some(p.as_str().to_owned()),
                None => None,
            };
            Some((caps["column"].to_owned(), power))
        },
        None => None,
    }
}

/// One term of a computed column: `sign coefficient * column ** power`, or
/// `sign coefficient` for a constant. The coefficient is a literal, or the
/// name of a variable or of a column; numbers are kept as written.
#[derive(Clone, Debug)]
pub struct ComputedColumnTerm {
    pub sign: ComputedColumnTermSign,
    pub kind: ComputedColumnTermKind,
    pub coefficient_kind: ComputedColumnValueKind,
    pub coefficient_literal: String,
    pub coefficient_column: String,
    pub column: String,
    pub power: String,
}

/// What a term holds.
pub struct TermView {
    pub sign: ComputedColumnTermSign,
    pub kind: ComputedColumnTermKind,
    pub coefficient_kind: ComputedColumnValueKind,
    pub coefficient_literal: Seq<char>,
    pub coefficient_column: Seq<char>,
    pub column: Seq<char>,
    pub power: Seq<char>,
}

impl View for ComputedColumnTerm {
    type V = TermView;

    open spec fn view(&self) -> TermView {
        TermView {
            sign: self.sign,
            kind: self.kind,
            coefficient_kind: self.coefficient_kind,
            coefficient_literal: self.coefficient_literal@,
            coefficient_column: self.coefficient_column@,
            column: self.column@,
            power: self.power@,
        }
    }
}

/// The term a new row starts with: `+ 1 * <no column> ** 1`.
pub open spec fn default_term() -> TermView {
    TermView {
        sign: ComputedColumnTermSign::Add,
        kind: ComputedColumnTermKind::Column,
        coefficient_kind: ComputedColumnValueKind::Literal,
        coefficient_literal: seq!['1'],
        coefficient_column: Seq::empty(),
        column: Seq::empty(),
        power: seq!['1'],
    }
}

impl Default for ComputedColumnTerm {
    fn default() -> (r: Self)
        ensures
            r@ == default_term(),
    {
        let one = chars_of("1");
        proof {
            reveal_strlit("1");
        }
        assert(one@ =~= seq!['1']);
        let empty_a = String::new();
        let empty_b = String::new();
        assert(empty_a@ =~= Seq::<char>::empty() && empty_b@ =~= Seq::<char>::empty());
        ComputedColumnTerm {
            sign: ComputedColumnTermSign::Add,
            kind: ComputedColumnTermKind::Column,
            coefficient_kind: ComputedColumnValueKind::Literal,
            coefficient_literal: string_of(&one),
            coefficient_column: empty_a,
            column: empty_b,
            power: string_of(&one),
        }
    }
}

/// The terms of a computed column, as the column editor holds them.
#[derive(Clone, Debug)]
pub struct ComputedColumnBuilder {
    pub terms: Vec<ComputedColumnTerm>,
}

/// The views of a list of terms.
pub open spec fn term_views(terms: Seq<ComputedColumnTerm>) -> Seq<TermView> {
    terms.map_values(|t: ComputedColumnTerm| t@)
}

impl Default for ComputedColumnBuilder {
    fn default() -> (r: Self)
        ensures
            term_views(r.terms@) == seq![default_term()],
    {
        let t = ComputedColumnTerm::default();
        let terms = vec![t];
        assert(term_views(terms@) =~= seq![default_term()]);
        ComputedColumnBuilder { terms }
    }
}

/// The power written after `**`, or 1 when none is written or std's `f64`
/// parser would refuse it.
pub open spec fn power_text(p: Option<Seq<char>>) -> Seq<char> {
    match p {
        Some(x) => if is_float_literal(x) {
            x
        } else {
            seq!['1']
        },
        None => seq!['1'],
    }
}

/// What the patterns say of one cleaned piece: the coefficient-times-column
/// capture, whether its coefficient is a number or an identifier, the
/// column-term capture, whether its column is an identifier, and whether the
/// whole piece is a number.
pub struct TermMatches {
    pub coefficient_column: Option<(String, String, Option<String>)>,
    pub coefficient_is_number: bool,
    pub coefficient_is_identifier: bool,
    pub column_term: Option<(String, Option<String>)>,
    pub column_is_identifier: bool,
    pub term_is_number: bool,
}

/// What the patterns say of one cleaned piece, as plain values.
pub struct TermMatchesView {
    pub coefficient_column: Option<(Seq<char>, Seq<char>, Option<Seq<char>>)>,
    pub coefficient_is_number: bool,
    pub coefficient_is_identifier: bool,
    pub column_term: Option<(Seq<char>, Option<Seq<char>>)>,
    pub column_is_identifier: bool,
    pub term_is_number: bool,
}

/// The view of an optional string.
pub open spec fn opt_view(o: Option<String>) -> Option<Seq<char>> {
    match o {
        Some(x) => Some(x@),
        None => None,
    }
}

impl View for TermMatches {
    type V = TermMatchesView;

    open spec fn view(&self) -> TermMatchesView {
        TermMatchesView {
            coefficient_column: match self.coefficient_column {
                Some((c, col, p)) => Some((c@, col@, opt_view(p))),
                None => None,
            },
            coefficient_is_number: self.coefficient_is_number,
            coefficient_is_identifier: self.coefficient_is_identifier,
            column_term: match self.column_term {
                Some((col, p)) => Some((col@, opt_view(p))),
                None => None,
            },
            column_is_identifier: self.column_is_identifier,
            term_is_number: self.term_is_number,
        }
    }
}

/// What the patterns of the `regex` crate say of `term`.
pub open spec fn matches_of(term: Seq<char>) -> TermMatchesView {
    let cc = coefficient_column_capture(term);
    let ct = column_term_capture(term);
    TermMatchesView {
        coefficient_column: cc,
        coefficient_is_number: match cc {
            Some(c) => number_pattern_match(c.0),
            None => false,
        },
        coefficient_is_identifier: match cc {
            Some(c) => identifier_pattern_match(c.0),
            None => false,
        },
        column_term: ct,
        column_is_identifier: match ct {
            Some(c) => identifier_pattern_match(c.0),
            None => false,
        },
        term_is_number: number_pattern_match(term),
    }
}

/// The term read from a cleaned piece given what the patterns say of it, or
/// `None` when the piece cannot be read (which makes the whole expression
/// unreadable): a coefficient times a column (the coefficient a number, a
/// variable or an identifier), a lone variable (a constant), a lone column,
/// or a lone number (a constant).
pub open spec fn term_given(
    sign: ComputedColumnTermSign,
    term: Seq<char>,
    m: TermMatchesView,
    columns: Seq<Seq<char>>,
    variables: Seq<Seq<char>>,
) -> Option<TermView> {
    let d = default_term();
    match m.coefficient_column {
        Some((coeff, column, power)) => {
            let base = TermView { sign, kind: ComputedColumnTermKind::Column, column, power: power_text(power), ..d };
            if m.coefficient_is_number {
                if is_float_literal(coeff) {
                    Some(TermView { coefficient_kind: ComputedColumnValueKind::Literal, coefficient_literal: coeff, ..base })
                } else {
                    None
                }
            } else if variables.contains(coeff) {
                Some(TermView { coefficient_kind: ComputedColumnValueKind::Variable, coefficient_column: coeff, ..base })
            } else if m.coefficient_is_identifier {
                Some(TermView { coefficient_kind: ComputedColumnValueKind::Column, coefficient_column: coeff, ..base })
            } else {
                None
            }
        },
        None => match m.column_term {
            Some((ident, power)) => {
                if variables.contains(ident) {
                    Some(
                        TermView {
                            sign,
                            kind: ComputedColumnTermKind::Constant,
                            coefficient_kind: ComputedColumnValueKind::Variable,
                            coefficient_column: ident,
                            ..d
                        },
                    )
                } else if columns.contains(ident) || m.column_is_identifier {
                    Some(
                        TermView {
                            sign,
                            kind: ComputedColumnTermKind::Column,
                            coefficient_kind: ComputedColumnValueKind::Literal,
                            column: ident,
                            power: power_text(power),
                            ..d
                        },
                    )
                } else {
                    None
                }
            },
            None => if m.term_is_number && is_float_literal(term) {
                Some(
                    TermView {
                        sign,
                        kind: ComputedColumnTermKind::Constant,
                        coefficient_kind: ComputedColumnValueKind::Literal,
                        coefficient_literal: term,
                        ..d
                    },
                )
            } else {
                None
            },
        },
    }
}

/// The term read from one additive piece: the piece is cleaned of wrapping
/// brackets and trimmed, then read as `term_given` reads it.
pub open spec fn term_spec(
    sign: ComputedColumnTermSign,
    raw: Seq<char>,
    columns: Seq<Seq<char>>,
    variables: Seq<Seq<char>>,
) -> Option<TermView> {
    let term = trim_spec(trim_wrapping_parentheses_spec(raw));
    term_given(sign, term, matches_of(term), columns, variables)
}

/// The terms read from the pieces, or `None` when one of them cannot be read.
pub open spec fn terms_spec(
    pieces: Seq<(ComputedColumnTermSign, Seq<char>)>,
    columns: Seq<Seq<char>>,
    variables: Seq<Seq<char>>,
) -> Option<Seq<TermView>>
    decreases pieces.len(),
{
    if pieces.len() == 0 {
        Some(Seq::empty())
    } else {
        match terms_spec(pieces.drop_last(), columns, variables) {
            Some(prev) => match term_spec(pieces.last().0, pieces.last().1, columns, variables) {
                Some(t) => Some(prev.push(t)),
                None => None,
            },
            None => None,
        }
    }
}

/// The terms a simple expression is read into: one default term for a blank
/// expression; otherwise the terms of its top-level additive pieces, or
/// `None` when a piece cannot be read or there is no piece.
pub open spec fn builder_spec(expression: Seq<char>, columns: Seq<Seq<char>>, variables: Seq<Seq<char>>) -> Option<
    Seq<TermView>,
> {
    let t = trim_spec(expression);
    if t.len() == 0 {
        Some(seq![default_term()])
    } else {
        match terms_spec(split_terms_spec(t), columns, variables) {
            Some(terms) => if terms.len() == 0 {
                None
            } else {
                Some(terms)
            },
            None => None,
        }
    }
}

fn power_or_one(p: Option<String>) -> (r: String)
    ensures
        r@ == power_text(match p {
            Some(x) => Some(x@),
            None => None,
        }),
{
    match p {
        Some(x) => {
            let c = chars_of(x.as_str());
            if check_float_literal(&c) {
                x
            } else {
                let one = chars_of("1");
                proof {
                    reveal_strlit("1");
                }
                assert(one@ =~= seq!['1']);
                string_of(&one)
            }
        },
        None => {
            let one = chars_of("1");
            proof {
                reveal_strlit("1");
            }
            assert(one@ =~= seq!['1']);
            string_of(&one)
        },
    }
}

/// Reads a cleaned piece into a term, given what the patterns say of it; see
/// `term_given`.
pub fn term_from_matches(
    sign: ComputedColumnTermSign,
    term: &String,
    m: TermMatches,
    available_columns: &Vec<String>,
    available_variables: &Vec<String>,
) -> (r: Option<ComputedColumnTerm>)
    ensures
        match r {
            Some(t) => term_given(sign, term@, m@, names_view(available_columns@), names_view(available_variables@))
                == Some(t@),
            None => term_given(sign, term@, m@, names_view(available_columns@), names_view(available_variables@))
                is None,
        },
{
    let d = ComputedColumnTerm::default();
    let ghost mv = m@;
    match m.coefficient_column {
        Some((coeff, column, power)) => {
            let power = power_or_one(power);
            let base = ComputedColumnTerm { sign, kind: ComputedColumnTermKind::Column, column, power, ..d };
            if m.coefficient_is_number {
                let c = chars_of(coeff.as_str());
                if check_float_literal(&c) {
                    Some(ComputedColumnTerm {
                        coefficient_kind: ComputedColumnValueKind::Literal,
                        coefficient_literal: coeff,
                        ..base
                    })
                } else {
                    None
                }
            } else if contains_string(available_variables, &coeff) {
                Some(ComputedColumnTerm {
                    coefficient_kind: ComputedColumnValueKind::Variable,
                    coefficient_column: coeff,
                    ..base
                })
            } else if m.coefficient_is_identifier {
                Some(ComputedColumnTerm {
                    coefficient_kind: ComputedColumnValueKind::Column,
                    coefficient_column: coeff,
                    ..base
                })
            } else {
                None
            }
        },
        None => match m.column_term {
            Some((ident, power)) => {
                if contains_string(available_variables, &ident) {
                    Some(ComputedColumnTerm {
                        sign,
                        kind: ComputedColumnTermKind::Constant,
                        coefficient_kind: ComputedColumnValueKind::Variable,
                        coefficient_column: ident,
                        ..d
                    })
                } else if contains_string(available_columns, &ident) || m.column_is_identifier {
                    let power = power_or_one(power);
                    Some(ComputedColumnTerm {
                        sign,
                        kind: ComputedColumnTermKind::Column,
                        coefficient_kind: ComputedColumnValueKind::Literal,
                        column: ident,
                        power,
                        ..d
                    })
                } else {
                    None
                }
            },
            None => {
                let t = chars_of(term.as_str());
                if m.term_is_number && check_float_literal(&t) {
                    Some(ComputedColumnTerm {
                        sign,
                        kind: ComputedColumnTermKind::Constant,
                        coefficient_kind: ComputedColumnValueKind::Literal,
                        coefficient_literal: term.clone(),
                        ..d
                    })
                } else {
                    None
                }
            },
        },
    }
}

/// Reads one additive piece into a term; see `term_spec`.
pub fn parse_term(
    sign: ComputedColumnTermSign,
    raw: &String,
    available_columns: &Vec<String>,
    available_variables: &Vec<String>,
) -> (r: Option<ComputedColumnTerm>)
    ensures
        match r {
            Some(t) => term_spec(sign, raw@, names_view(available_columns@), names_view(available_variables@))
                == Some(t@),
            None => term_spec(sign, raw@, names_view(available_columns@), names_view(available_variables@)) is None,
        },
{
    let unwrapped = trim_wrapping_parentheses(raw.as_str());
    let trimmed = trimmed_chars(unwrapped.as_str());
    let term = string_of(&trimmed);
    let coefficient_column = capture_coefficient_column(term.as_str());
    let (coefficient_is_number, coefficient_is_identifier) = match &coefficient_column {
        Some((coeff, _, _)) => (matches_number_pattern(coeff.as_str()), matches_identifier_pattern(coeff.as_str())),
        None => (false, false),
    };
    let column_term = capture_column_term(term.as_str());
    let column_is_identifier = match &column_term {
        Some((ident, _)) => matches_identifier_pattern(ident.as_str()),
        None => false,
    };
    let term_is_number = matches_number_pattern(term.as_str());
    let m = TermMatches {
        coefficient_column,
        coefficient_is_number,
        coefficient_is_identifier,
        column_term,
        column_is_identifier,
        term_is_number,
    };
    assert(m@ == matches_of(term@));
    term_from_matches(sign, &term, m, available_columns, available_variables)
}

/// Reads a simple expression into the terms of the column editor; see
/// `builder_spec`. `None` means the expression is beyond what the editor
/// shows term by term.
pub fn parse_simple_computed_column_builder(
    expression: &str,
    available_columns: &Vec<String>,
    available_variables: &Vec<String>,
) -> (r: Option<ComputedColumnBuilder>)
    ensures
        match r {
            Some(b) => builder_spec(expression@, names_view(available_columns@), names_view(available_variables@))
                == Some(term_views(b.terms@)),
            None => builder_spec(expression@, names_view(available_columns@), names_view(available_variables@)) is None,
        },
{
    let ghost cols = names_view(available_columns@);
    let ghost vars = names_view(available_variables@);
    let trimmed = trimmed_chars(expression);
    if trimmed.len() == 0 {
        return Some(ComputedColumnBuilder::default());
    }
    let t = string_of(&trimmed);
    let pieces = split_top_level_additive_terms(t.as_str());
    let ghost pv = terms_view(pieces@);
    assert(pv == split_terms_spec(trim_spec(expression@)));
    let mut terms: Vec<ComputedColumnTerm> = Vec::new();
    let mut i: usize = 0;
    while i < pieces.len()
        invariant
            i <= pieces.len(),
            pv == terms_view(pieces@),
            pv == split_terms_spec(trim_spec(expression@)),
            trim_spec(expression@).len() > 0,
            cols == names_view(available_columns@),
            vars == names_view(available_variables@),
            terms_spec(pv.take(i as int), cols, vars) == Some(term_views(terms@)),
        decreases pieces.len() - i,
    {
        assert(pv.take(i + 1).drop_last() =~= pv.take(i as int));
        assert(pv.take(i + 1).last() == (pieces@[i as int].0, pieces@[i as int].1@));
        let (sign, raw) = (pieces[i].0, &pieces[i].1);
        match parse_term(sign, raw, available_columns, available_variables) {
            Some(term) => {
                let ghost before = term_views(terms@);
                terms.push(term);
                assert(term_views(terms@) =~= before.push(term@));
            },
            None => {
                proof {
                    lemma_terms_fail_stays(pv, cols, vars, i as int + 1);
                }
                assert(builder_spec(expression@, cols, vars) is None);
                return None;
            },
        }
        i += 1;
    }
    assert(pv.take(pieces.len() as int) =~= pv);
    if terms.len() == 0 {
        None
    } else {
        Some(ComputedColumnBuilder { terms })
    }
}

proof fn lemma_terms_fail_stays(
    pieces: Seq<(ComputedColumnTermSign, Seq<char>)>,
    columns: Seq<Seq<char>>,
    variables: Seq<Seq<char>>,
    k: int,
)
    requires
        0 <= k <= pieces.len(),
        terms_spec(pieces.take(k), columns, variables) is None,
    ensures
        terms_spec(pieces, columns, variables) is None,
    decreases pieces.len() - k,
{
    if k < pieces.len() {
        assert(pieces.take(k + 1).drop_last() =~= pieces.take(k));
        lemma_terms_fail_stays(pieces, columns, variables, k + 1);
    } else {
        assert(pieces.take(k) =~= pieces);
    }
}

/// `body` in brackets.
pub open spec fn bracketed(body: Seq<char>) -> Seq<char> {
    seq!['('] + body + seq![')']
}

/// The expression written from the signed bodies of the terms that have one:
/// the first in brackets (after `0 - ` when it is subtracted), each further one
/// in brackets after ` + ` or ` - `; empty when there is none.
pub open spec fn assemble_spec(bodies: Seq<(ComputedColumnTermSign, Seq<char>)>) -> Seq<char>
    decreases bodies.len(),
{
    if bodies.len() == 0 {
        Seq::empty()
    } else if bodies.len() == 1 {
        match bodies[0].0 {
            ComputedColumnTermSign::Add => bracketed(bodies[0].1),
            ComputedColumnTermSign::Subtract => seq!['0', ' ', '-', ' '] + bracketed(bodies[0].1),
        }
    } else {
        let joint = match bodies.last().0 {
            ComputedColumnTermSign::Add => seq![' ', '+', ' '],
            ComputedColumnTermSign::Subtract => seq![' ', '-', ' '],
        };
        assemble_spec(bodies.drop_last()) + joint + bracketed(bodies.last().1)
    }
}

fn push_all(out: &mut Vec<char>, v: &Vec<char>)
    ensures
        final(out)@ == old(out)@ + v@,
{
    let ghost start = out@;
    let mut i: usize = 0;
    while i < v.len()
        invariant
            i <= v.len(),
            out@ == start + v@.take(i as int),
        decreases v.len() - i,
    {
        out.push(v[i]);
        i += 1;
        assert(out@ =~= start + v@.take(i as int));
    }
    assert(v@.take(v.len() as int) =~= v@);
}

/// Writes the expression of a computed column from the signed bodies of its
/// terms; see `assemble_spec`.
pub fn expression_from_term_bodies(bodies: &Vec<(ComputedColumnTermSign, String)>) -> (r: String)
    ensures
        r@ == assemble_spec(terms_view(bodies@)),
{
    let ghost bv = terms_view(bodies@);
    let mut out: Vec<char> = Vec::new();
    let mut i: usize = 0;
    while i < bodies.len()
        invariant
            i <= bodies.len(),
            bv == terms_view(bodies@),
            out@ == assemble_spec(bv.take(i as int)),
        decreases bodies.len() - i,
    {
        let ghost t = bv.take(i + 1);
        assert(t.drop_last() =~= bv.take(i as int));
        assert(t.last() == bv[i as int]);
        assert(bv[i as int] == (bodies@[i as int].0, bodies@[i as int].1@));
        let ghost before = out@;
        let body = chars_of(bodies[i].1.as_str());
        if i == 0 {
            if bodies[i].0 == ComputedColumnTermSign::Subtract {
                out.push('0');
                out.push(' ');
                out.push('-');
                out.push(' ');
            }
        } else {
            out.push(' ');
            if bodies[i].0 == ComputedColumnTermSign::Add {
                out.push('+');
            } else {
                out.push('-');
            }
            out.push(' ');
        }
        out.push('(');
        push_all(&mut out, &body);
        out.push(')');
        proof {
            if i == 0 {
                assert(t.len() == 1);
                assert(t[0] == bv[0]);
                assert(before.len() == 0);
                if bodies@[0].0 == ComputedColumnTermSign::Subtract {
                    assert(out@ =~= seq!['0', ' ', '-', ' '] + bracketed(body@));
                } else {
                    assert(out@ =~= bracketed(body@));
                }
            } else {
                if bodies@[i as int].0 == ComputedColumnTermSign::Add {
                    assert(out@ =~= before + seq![' ', '+', ' '] + bracketed(body@));
                } else {
                    assert(out@ =~= before + seq![' ', '-', ' '] + bracketed(body@));
                }
            }
        }
        i += 1;
    }
    assert(bv.take(bodies.len() as int) =~= bv);
    string_of(&out)
}

impl ComputedColumnBuilder {
    /// Gives an empty builder its one default term.
    pub fn ensure_terms(&mut self)
        ensures
            old(self).terms.len() == 0 ==> term_views(final(self).terms@) == seq![default_term()],
            old(self).terms.len() > 0 ==> term_views(final(self).terms@) == term_views(old(self).terms@),
    {
        if self.terms.len() == 0 {
            let t = ComputedColumnTerm::default();
            self.terms.push(t);
            assert(term_views(self.terms@) =~= seq![default_term()]);
        }
    }
}

} // verus!

//! Reading a computed-column expression into an expression tree: the tokens
//! are read left to right with an operand stack and an operator stack, by
//! operator precedence (`**` over `*` and `/` over `+` and `-`).
use vstd::prelude::*;
use crate::expressions::{is_left_associative, precedence, precedence_spec};
use crate::identifiers::{is_valid_alias_spec, is_valid_computed_column_alias};
use crate::float_literal::{check_float_literal, is_float_literal};
use crate::names::{contains_string, names_view};
use crate::text::chars_of;

verus! {

/// The tokens that the expression tokenizer of the `regex` crate
/// (`(-?\d+\.?\d*|\w+|\*\*|[+*/()-])`) finds in an expression, in order.
pub uninterp spec fn parser_tokens(expression: Seq<char>) -> Seq<Seq<char>>;

/// Splits an expression into tokens with the `regex` crate (`Regex::find_iter`
/// with the pattern `(-?\d+\.?\d*|\w+|\*\*|[+*/()-])`). The contract names the
/// result and says nothing more of it.
#[verifier::external_body]
fn tokenize_for_parser(expression: &str) -> (r: Vec<String>)
    ensures
        names_view(r@) == parser_tokens(expression@),
{
    let re = regex::Regex::new(r"(-?\d+\.?\d*|\w+|\*\*|[+*/()-])").expect("Failed to create regex");
    let mut tokens = Vec::new();
    for m in re.find_iter(expression) {
        tokens.push(m.as_str().to_owned());
    }
    tokens
}

/// The binary operators of an expression.
#[derive(Clone, Copy, Debug, PartialEq, Eq, Structural)]
pub enum BinaryOp {
    Add,
    Subtract,
    Multiply,
    Divide,
    Power,
}

/// An expression tree. A literal is kept as the text that was written, with a
/// flag for a sign that was folded into it; a variable is kept by name, for
/// its value to be put in where the tree is evaluated.
#[derive(Debug)]
pub enum ExprTree {
    Literal { negated: bool, text: String },
    Variable(String),
    Column(String),
    Binary(BinaryOp, Box<ExprTree>, Box<ExprTree>),
}

/// What an expression tree holds.
pub enum TreeView {
    Literal(bool, Seq<char>),
    Variable(Seq<char>),
    Column(Seq<char>),
    Binary(BinaryOp, Box<TreeView>, Box<TreeView>),
}

/// The view of an expression tree.
pub open spec fn tree_view(t: ExprTree) -> TreeView
    decreases t,
{
    match t {
        ExprTree::Literal { negated, text } => TreeView::Literal(negated, text@),
        ExprTree::Variable(n) => TreeView::Variable(n@),
        ExprTree::Column(n) => TreeView::Column(n@),
        ExprTree::Binary(op, l, r) => TreeView::Binary(op, Box::new(tree_view(*l)), Box::new(tree_view(*r))),
    }
}

/// The views of a stack of trees.
pub open spec fn trees_view(s: Seq<ExprTree>) -> Seq<TreeView> {
    s.map_values(|t: ExprTree| tree_view(t))
}

/// The kinds of token the parser tells apart.
#[derive(Clone, Copy, Debug, PartialEq, Eq, Structural)]
pub enum TokenKind {
    Plus,
    Minus,
    Star,
    Slash,
    Pow,
    Open,
    Close,
    Other,
}

/// The kind of a token.
pub open spec fn kind_of(t: Seq<char>) -> TokenKind {
    if t == seq!['+'] {
        TokenKind::Plus
    } else if t == seq!['-'] {
        TokenKind::Minus
    } else if t == seq!['*'] {
        TokenKind::Star
    } else if t == seq!['/'] {
        TokenKind::Slash
    } else if t == seq!['*', '*'] {
        TokenKind::Pow
    } else if t == seq!['('] {
        TokenKind::Open
    } else if t == seq![')'] {
        TokenKind::Close
    } else {
        TokenKind::Other
    }
}

/// A binary operator token.
pub open spec fn is_operator(k: TokenKind) -> bool {
    k == TokenKind::Plus || k == TokenKind::Minus || k == TokenKind::Star || k == TokenKind::Slash || k
        == TokenKind::Pow
}

/// A sign token.
pub open spec fn is_sign(k: TokenKind) -> bool {
    k == TokenKind::Plus || k == TokenKind::Minus
}

/// `+`, `-`, `*` and `/` group to the left.
pub open spec fn left_assoc_text(t: Seq<char>) -> bool {
    t == seq!['+'] || t == seq!['-'] || t == seq!['*'] || t == seq!['/']
}

/// The binary operator a token stands for, if any.
pub open spec fn binary_of(k: TokenKind) -> Option<BinaryOp> {
    if k == TokenKind::Plus {
        Some(BinaryOp::Add)
    } else if k == TokenKind::Minus {
        Some(BinaryOp::Subtract)
    } else if k == TokenKind::Star {
        Some(BinaryOp::Multiply)
    } else if k == TokenKind::Slash {
        Some(BinaryOp::Divide)
    } else if k == TokenKind::Pow {
        Some(BinaryOp::Power)
    } else {
        None
    }
}

/// Applying an operator to the operand stack: with fewer than two operands
/// nothing happens; otherwise the top two are popped and, when the token is a
/// binary operator, joined into one tree that is pushed back.
pub open spec fn apply_spec(exprs: Seq<TreeView>, op: Seq<char>) -> Seq<TreeView> {
    if exprs.len() < 2 {
        exprs
    } else {
        let n = exprs.len();
        let rest = exprs.take(n - 2);
        match binary_of(kind_of(op)) {
            Some(b) => rest.push(TreeView::Binary(b, Box::new(exprs[n - 2]), Box::new(exprs[n - 1]))),
            None => rest,
        }
    }
}

/// The state of the parser: the operand stack and the operator stack.
pub type ParseState = (Seq<TreeView>, Seq<Seq<char>>);

/// Before an operator is pushed, the operators on top of the stack that bind
/// at least as tightly (strictly more for `**`) are applied.
pub open spec fn reduce_for(s: ParseState, t: Seq<char>) -> ParseState
    decreases s.1.len(),
{
    if s.1.len() == 0 {
        s
    } else {
        let top = s.1.last();
        if precedence_spec(top) > precedence_spec(t) || (precedence_spec(top) == precedence_spec(t)
            && left_assoc_text(t)) {
            reduce_for((apply_spec(s.0, top), s.1.drop_last()), t)
        } else {
            s
        }
    }
}

/// At a closing bracket, operators are popped and applied down to the
/// nearest opening bracket, which is popped too.
pub open spec fn close_spec(s: ParseState) -> ParseState
    decreases s.1.len(),
{
    if s.1.len() == 0 {
        s
    } else if kind_of(s.1.last()) == TokenKind::Open {
        (s.0, s.1.drop_last())
    } else {
        close_spec((apply_spec(s.0, s.1.last()), s.1.drop_last()))
    }
}

/// At the end every operator left is popped and applied.
pub open spec fn finish_spec(s: ParseState) -> ParseState
    decreases s.1.len(),
{
    if s.1.len() == 0 {
        s
    } else {
        finish_spec((apply_spec(s.0, s.1.last()), s.1.drop_last()))
    }
}

/// Past a run of sign tokens starting at `j`: where the run ends, and whether
/// it flips the sign `negated`.
pub open spec fn sign_run(tokens: Seq<Seq<char>>, j: int, negated: bool) -> (int, bool)
    decreases tokens.len() - j,
{
    if j < 0 || j >= tokens.len() || !is_sign(kind_of(tokens[j])) {
        (j, negated)
    } else {
        sign_run(tokens, j + 1, if kind_of(tokens[j]) == TokenKind::Minus { !negated } else { negated })
    }
}

/// The operand a plain token stands for: a literal when std's `f64` parser
/// accepts it, else a variable when one has its name, else a column.
pub open spec fn operand_of(t: Seq<char>, variables: Seq<Seq<char>>) -> TreeView {
    if is_float_literal(t) {
        TreeView::Literal(false, t)
    } else if variables.contains(t) {
        TreeView::Variable(t)
    } else {
        TreeView::Column(t)
    }
}

/// The parser run from token `i` in state `s`, up to and including the final
/// application of the operators left. An operator followed by a sign token
/// starts a run of signs; when a number follows the run, the number with the
/// run's sign is pushed, the operator is dropped, and reading goes on after
/// the number.
pub open spec fn run_spec(tokens: Seq<Seq<char>>, variables: Seq<Seq<char>>, i: int, s: ParseState) -> ParseState
    decreases tokens.len() - i,
{
    if i < 0 || i >= tokens.len() {
        finish_spec(s)
    } else {
        let t = tokens[i];
        let k = kind_of(t);
        if is_operator(k) {
            let (j, negated) = sign_run(tokens, i + 1, k == TokenKind::Minus);
            if i + 1 < tokens.len() && is_sign(kind_of(tokens[i + 1])) && j < tokens.len() && is_float_literal(
                tokens[j],
            ) && j > i {
                run_spec(tokens, variables, j + 1, (s.0.push(TreeView::Literal(negated, tokens[j])), s.1))
            } else {
                let r = reduce_for(s, t);
                run_spec(tokens, variables, i + 1, (r.0, r.1.push(t)))
            }
        } else if k == TokenKind::Open {
            run_spec(tokens, variables, i + 1, (s.0, s.1.push(t)))
        } else if k == TokenKind::Close {
            run_spec(tokens, variables, i + 1, close_spec(s))
        } else {
            run_spec(tokens, variables, i + 1, (s.0.push(operand_of(t, variables)), s.1))
        }
    }
}

/// The tree an expression is read into, when exactly one operand is left at
/// the end.
pub open spec fn parse_expression_spec(expression: Seq<char>, variables: Seq<Seq<char>>) -> Option<TreeView> {
    let f = run_spec(parser_tokens(expression), variables, 0, (Seq::empty(), Seq::empty()));
    if f.0.len() == 1 {
        Some(f.0[0])
    } else {
        None
    }
}

proof fn lemma_sign_run_range(tokens: Seq<Seq<char>>, j: int, negated: bool)
    requires
        0 <= j <= tokens.len(),
    ensures
        j <= sign_run(tokens, j, negated).0 <= tokens.len(),
    decreases tokens.len() - j,
{
    if j < tokens.len() && is_sign(kind_of(tokens[j])) {
        lemma_sign_run_range(tokens, j + 1, if kind_of(tokens[j]) == TokenKind::Minus { !negated } else { negated });
    }
}

/// The kind of a token.
pub fn token_kind(t: &String) -> (r: TokenKind)
    ensures
        r == kind_of(t@),
{
    let c = chars_of(t.as_str());
    if c.len() == 1 {
        let x = c[0];
        assert(c@ =~= seq![x]);
        if x == '+' {
            TokenKind::Plus
        } else if x == '-' {
            TokenKind::Minus
        } else if x == '*' {
            TokenKind::Star
        } else if x == '/' {
            TokenKind::Slash
        } else if x == '(' {
            TokenKind::Open
        } else if x == ')' {
            TokenKind::Close
        } else {
            assert(c@ != seq!['*', '*']);
            TokenKind::Other
        }
    } else if c.len() == 2 && c[0] == '*' && c[1] == '*' {
        assert(c@ =~= seq!['*', '*']);
        TokenKind::Pow
    } else {
        proof {
            if c.len() == 2 {
                assert(c@ != seq!['*', '*']) by {
                    if c@ == seq!['*', '*'] {
                        assert(c@[0] == '*' && c@[1] == '*');
                    }
                }
            }
        }
        TokenKind::Other
    }
}

/// Applies an operator to the operand stack; see `apply_spec`.
fn apply_op(exprs: &mut Vec<ExprTree>, op: &String)
    ensures
        trees_view(final(exprs)@) == apply_spec(trees_view(old(exprs)@), op@),
{
    if exprs.len() < 2 {
        return;
    }
    let ghost before = trees_view(exprs@);
    let right = exprs.pop().unwrap();
    let left = exprs.pop().unwrap();
    let ghost rest = trees_view(exprs@);
    assert(rest =~= before.take(before.len() - 2));
    let b = match token_kind(op) {
        TokenKind::Plus => Some(BinaryOp::Add),
        TokenKind::Minus => Some(BinaryOp::Subtract),
        TokenKind::Star => Some(BinaryOp::Multiply),
        TokenKind::Slash => Some(BinaryOp::Divide),
        TokenKind::Pow => Some(BinaryOp::Power),
        _ => None,
    };
    match b {
        Some(b) => {
            let t = ExprTree::Binary(b, Box::new(left), Box::new(right));
            exprs.push(t);
            assert(trees_view(exprs@) =~= rest.push(tree_view(t)));
        },
        None => {},
    }
}

fn push_tree(exprs: &mut Vec<ExprTree>, t: ExprTree)
    ensures
        trees_view(final(exprs)@) == trees_view(old(exprs)@).push(tree_view(t)),
{
    let ghost before = trees_view(exprs@);
    let ghost tv = tree_view(t);
    exprs.push(t);
    assert(trees_view(exprs@) =~= before.push(tv));
}

/// Why an expression could not be read.
#[derive(Clone, Copy, Debug, PartialEq, Eq, Structural)]
pub enum ExprError {
    InvalidExpression,
}

/// Reads `expression` into an expression tree; see `run_spec`. A token that
/// names one of `variables` becomes a variable. The expression is refused
/// when anything but exactly one operand is left at the end.
pub fn expr_from_string(expression: &str, variables: &Vec<String>) -> (r: Result<ExprTree, ExprError>)
    ensures
        match r {
            Ok(t) => parse_expression_spec(expression@, names_view(variables@)) == Some(tree_view(t)),
            Err(_) => parse_expression_spec(expression@, names_view(variables@)) is None,
        },
{
    let tokens = tokenize_for_parser(expression);
    parse_tokens(&tokens, variables)
}

/// Reads a list of tokens into an expression tree; see `run_spec`.
pub fn parse_tokens(tokens: &Vec<String>, variables: &Vec<String>) -> (r: Result<ExprTree, ExprError>)
    ensures
        ({
            let f = run_spec(names_view(tokens@), names_view(variables@), 0, (Seq::empty(), Seq::empty()));
            match r {
                Ok(t) => f.0.len() == 1 && f.0[0] == tree_view(t),
                Err(_) => f.0.len() != 1,
            }
        }),
{
    let ghost tv = names_view(tokens@);
    let ghost vv = names_view(variables@);
    let ghost goal = run_spec(tv, vv, 0, (Seq::empty(), Seq::empty()));
    let mut exprs: Vec<ExprTree> = Vec::new();
    let mut ops: Vec<String> = Vec::new();
    let n = tokens.len();
    let mut i: usize = 0;
    assert(trees_view(exprs@) =~= Seq::<TreeView>::empty());
    assert(names_view(ops@) =~= Seq::<Seq<char>>::empty());
    while i < n
        invariant
            i <= n == tokens.len(),
            tv == names_view(tokens@),
            vv == names_view(variables@),
            run_spec(tv, vv, i as int, (trees_view(exprs@), names_view(ops@))) == goal,
        decreases n - i,
    {
        let k = token_kind(&tokens[i]);
        assert(tv[i as int] == tokens@[i as int]@);
        let ghost s = (trees_view(exprs@), names_view(ops@));
        if k == TokenKind::Plus || k == TokenKind::Minus || k == TokenKind::Star || k == TokenKind::Slash || k
            == TokenKind::Pow {
            let mut folded = false;
            if i + 1 < n {
                let next = token_kind(&tokens[i + 1]);
                assert(tv[i + 1] == tokens@[i + 1]@);
                if next == TokenKind::Plus || next == TokenKind::Minus {
                    let mut negated = k == TokenKind::Minus;
                    let mut j = i + 1;
                    loop
                        invariant
                            i < j <= n == tokens.len(),
                            tv == names_view(tokens@),
                            sign_run(tv, j as int, negated) == sign_run(tv, i + 1, k == TokenKind::Minus),
                        ensures
                            i < j <= n,
                            (j as int, negated) == sign_run(tv, i + 1, k == TokenKind::Minus),
                        decreases n - j,
                    {
                        if j >= n {
                            break;
                        }
                        let kj = token_kind(&tokens[j]);
                        assert(tv[j as int] == tokens@[j as int]@);
                        if kj != TokenKind::Plus && kj != TokenKind::Minus {
                            break;
                        }
                        if kj == TokenKind::Minus {
                            negated = !negated;
                        }
                        j += 1;
                    }
                    if j < n {
                        let number = chars_of(tokens[j].as_str());
                        assert(tv[j as int] == tokens@[j as int]@);
                        if check_float_literal(&number) {
                            let text = tokens[j].clone();
                            push_tree(&mut exprs, ExprTree::Literal { negated, text });
                            i = j + 1;
                            folded = true;
                        }
                    }
                }
            }
            if !folded {
                let ghost before = (trees_view(exprs@), names_view(ops@));
                loop
                    invariant
                        i < n == tokens.len(),
                        tv == names_view(tokens@),
                        reduce_for((trees_view(exprs@), names_view(ops@)), tv[i as int]) == reduce_for(before, tv[i as int]),
                    ensures
                        (trees_view(exprs@), names_view(ops@)) == reduce_for(before, tv[i as int]),
                    decreases ops.len(),
                {
                    if ops.len() == 0 {
                        break;
                    }
                    let top = &ops[ops.len() - 1];
                    assert(top@ == ops@.last()@);
                    let token = &tokens[i];
                    assert(token@ == tv[i as int]);
                    assert(top@ == names_view(ops@).last());
                    if precedence(top.as_str()) > precedence(token.as_str()) || (precedence(top.as_str())
                        == precedence(token.as_str()) && is_left_associative(token.as_str())) {
                        let ghost cur = (trees_view(exprs@), names_view(ops@));
                        let op = ops.pop().unwrap();
                        apply_op(&mut exprs, &op);
                        assert(names_view(ops@) =~= cur.1.drop_last());
                    } else {
                        break;
                    }
                }
                let ghost mid = names_view(ops@);
                ops.push(tokens[i].clone());
                assert(names_view(ops@) =~= mid.push(tv[i as int]));
                i += 1;
            }
        } else if k == TokenKind::Open {
            let ghost mid = names_view(ops@);
            ops.push(tokens[i].clone());
            assert(names_view(ops@) =~= mid.push(tv[i as int]));
            i += 1;
        } else if k == TokenKind::Close {
            let ghost before = (trees_view(exprs@), names_view(ops@));
            loop
                invariant_except_break
                    close_spec((trees_view(exprs@), names_view(ops@))) == close_spec(before),
                ensures
                    (trees_view(exprs@), names_view(ops@)) == close_spec(before),
                decreases ops.len(),
            {
                if ops.len() == 0 {
                    break;
                }
                let ghost cur = (trees_view(exprs@), names_view(ops@));
                let op = ops.pop().unwrap();
                assert(names_view(ops@) =~= cur.1.drop_last());
                if token_kind(&op) == TokenKind::Open {
                    break;
                } else {
                    apply_op(&mut exprs, &op);
                }
            }
            i += 1;
        } else {
            let name = &tokens[i];
            let text = chars_of(name.as_str());
            let t = if check_float_literal(&text) {
                ExprTree::Literal { negated: false, text: name.clone() }
            } else if contains_string(variables, name) {
                ExprTree::Variable(name.clone())
            } else {
                ExprTree::Column(name.clone())
            };
            push_tree(&mut exprs, t);
            i += 1;
        }
    }
    let ghost before = (trees_view(exprs@), names_view(ops@));
    while ops.len() > 0
        invariant
            finish_spec((trees_view(exprs@), names_view(ops@))) == finish_spec(before),
        decreases ops.len(),
    {
        let ghost cur = (trees_view(exprs@), names_view(ops@));
        let op = ops.pop().unwrap();
        assert(names_view(ops@) =~= cur.1.drop_last());
        apply_op(&mut exprs, &op);
    }
    if exprs.len() == 1 {
        let t = exprs.pop().unwrap();
        Ok(t)
    } else {
        Err(ExprError::InvalidExpression)
    }
}

/// Why a computed column could not be made.
#[derive(Clone, Copy, Debug, PartialEq, Eq, Structural)]
pub enum ComputedColumnError {
    InvalidAlias,
    InvalidExpression,
}

/// The tree of a computed column: refused when its alias is not a valid
/// computed-column alias, or when its expression cannot be read; otherwise the
/// tree `expr_from_string` reads.
pub fn computed_column_expression(expression: &str, alias: &str, variables: &Vec<String>) -> (r: Result<
    ExprTree,
    ComputedColumnError,
>)
    ensures
        !is_valid_alias_spec(alias@) ==> r == Err::<ExprTree, ComputedColumnError>(
            ComputedColumnError::InvalidAlias,
        ),
        is_valid_alias_spec(alias@) ==> match r {
            Ok(t) => parse_expression_spec(expression@, names_view(variables@)) == Some(tree_view(t)),
            Err(e) => e == ComputedColumnError::InvalidExpression && parse_expression_spec(
                expression@,
                names_view(variables@),
            ) is None,
        },
{
    if !is_valid_computed_column_alias(alias) {
        return Err(ComputedColumnError::InvalidAlias);
    }
    match expr_from_string(expression, variables) {
        Ok(t) => Ok(t),
        Err(_) => Err(ComputedColumnError::InvalidExpression),
    }
}

/// The binary operator written as the one-character token `c`.
pub open spec fn operator_of_char(c: char) -> BinaryOp {
    if c == '+' {
        BinaryOp::Add
    } else if c == '-' {
        BinaryOp::Subtract
    } else if c == '*' {
        BinaryOp::Multiply
    } else {
        BinaryOp::Divide
    }
}

/// `+` and `-` bind alike, and so do `*` and `/`.
pub open spec fn same_level(a: char, b: char) -> bool {
    ((a == '+' || a == '-') && (b == '+' || b == '-')) || ((a == '*' || a == '/') && (b == '*' || b == '/'))
}

/// Operators of one level group to the left: the tokens `x op1 y op2 z`, for
/// any three operands and two of `+`, `-`, `*`, `/` that bind alike, are read
/// as `(x op1 y) op2 z`. In particular `a / b / c` is `(a / b) / c`.
pub proof fn lemma_same_level_operators_group_left(
    x: Seq<char>,
    y: Seq<char>,
    z: Seq<char>,
    op1: char,
    op2: char,
    variables: Seq<Seq<char>>,
)
    requires
        kind_of(x) == TokenKind::Other,
        kind_of(y) == TokenKind::Other,
        kind_of(z) == TokenKind::Other,
        same_level(op1, op2),
    ensures
        run_spec(seq![x, seq![op1], y, seq![op2], z], variables, 0, (Seq::empty(), Seq::empty())) == (
            seq![
                TreeView::Binary(
                    operator_of_char(op2),
                    Box::new(
                        TreeView::Binary(
                            operator_of_char(op1),
                            Box::new(operand_of(x, variables)),
                            Box::new(operand_of(y, variables)),
                        ),
                    ),
                    Box::new(operand_of(z, variables)),
                ),
            ],
            Seq::<Seq<char>>::empty(),
        ),
{
    let t = seq![x, seq![op1], y, seq![op2], z];
    let o1 = seq![op1];
    let o2 = seq![op2];
    let vx = operand_of(x, variables);
    let vy = operand_of(y, variables);
    let vz = operand_of(z, variables);
    let e: Seq<TreeView> = Seq::empty();
    let no: Seq<Seq<char>> = Seq::empty();
    assert(kind_of(o1) == TokenKind::Plus || kind_of(o1) == TokenKind::Minus || kind_of(o1) == TokenKind::Star
        || kind_of(o1) == TokenKind::Slash);
    assert(kind_of(o2) == TokenKind::Plus || kind_of(o2) == TokenKind::Minus || kind_of(o2) == TokenKind::Star
        || kind_of(o2) == TokenKind::Slash);
    assert(binary_of(kind_of(o1)) == Some(operator_of_char(op1)));
    assert(binary_of(kind_of(o2)) == Some(operator_of_char(op2)));
    assert(precedence_spec(o1) == precedence_spec(o2));
    assert(left_assoc_text(o2));
    let s1 = (e.push(vx), no);
    let s2 = (e.push(vx), no.push(o1));
    let s3 = (e.push(vx).push(vy), no.push(o1));
    let b1 = TreeView::Binary(operator_of_char(op1), Box::new(vx), Box::new(vy));
    let s4 = (e.push(b1), no.push(o2));
    let s5 = (e.push(b1).push(vz), no.push(o2));
    let b2 = TreeView::Binary(operator_of_char(op2), Box::new(b1), Box::new(vz));
    // The end: the last operator is applied.
    assert(apply_spec(s5.0, o2) =~= seq![b2]);
    assert(finish_spec((seq![b2], no)) == (seq![b2], no));
    assert(s5.1.drop_last() =~= no);
    assert(finish_spec(s5) == (seq![b2], no));
    assert(run_spec(t, variables, 5, s5) == (seq![b2], no));
    // `z` is pushed.
    assert(run_spec(t, variables, 4, s4) == run_spec(t, variables, 5, s5));
    // `op2` applies `op1` first, as they bind alike and group to the left.
    assert(apply_spec(s3.0, o1) =~= e.push(b1));
    assert(s3.1.drop_last() =~= no);
    assert(reduce_for((e.push(b1), no), o2) == (e.push(b1), no));
    assert(reduce_for(s3, o2) == (e.push(b1), no));
    assert(!is_sign(kind_of(t[4])));
    assert(run_spec(t, variables, 3, s3) == run_spec(t, variables, 4, s4));
    // `y` is pushed.
    assert(run_spec(t, variables, 2, s2) == run_spec(t, variables, 3, s3));
    // `op1` is pushed onto an empty operator stack.
    assert(reduce_for(s1, o1) == s1);
    assert(!is_sign(kind_of(t[2])));
    assert(run_spec(t, variables, 1, s1) == run_spec(t, variables, 2, s2));
    // `x` is pushed.
    assert(run_spec(t, variables, 0, (e, no)) == run_spec(t, variables, 1, s1));
}

/// The operator a binary operator token stands for: `+`, `-`, `*`, `/` or
/// `**`.
pub open spec fn operator_token(o: Seq<char>) -> Option<BinaryOp> {
    if o == seq!['+'] {
        Some(BinaryOp::Add)
    } else if o == seq!['-'] {
        Some(BinaryOp::Subtract)
    } else if o == seq!['*'] {
        Some(BinaryOp::Multiply)
    } else if o == seq!['/'] {
        Some(BinaryOp::Divide)
    } else if o == seq!['*', '*'] {
        Some(BinaryOp::Power)
    } else {
        None
    }
}

/// How tightly an operator binds, in the usual order: sums, then products,
/// then powers.
pub open spec fn binding_level(o: Seq<char>) -> int {
    if o == seq!['+'] || o == seq!['-'] {
        1
    } else if o == seq!['*'] || o == seq!['/'] {
        2
    } else {
        3
    }
}

/// Two operators between three operands group by how tightly they bind: the
/// first is applied first when it binds at least as tightly as the second,
/// unless both are `**`, which groups to the right; otherwise the second is
/// applied first. So `a + b * c` is `a + (b * c)`, `a * b + c` is
/// `(a * b) + c`, `a - b + c` is `(a - b) + c` and `a ** b ** c` is
/// `a ** (b ** c)`.
pub proof fn lemma_operators_group_by_binding(
    x: Seq<char>,
    y: Seq<char>,
    z: Seq<char>,
    o1: Seq<char>,
    o2: Seq<char>,
    variables: Seq<Seq<char>>,
)
    requires
        kind_of(x) == TokenKind::Other,
        kind_of(y) == TokenKind::Other,
        kind_of(z) == TokenKind::Other,
        operator_token(o1) is Some,
        operator_token(o2) is Some,
    ensures
        ({
            let vx = operand_of(x, variables);
            let vy = operand_of(y, variables);
            let vz = operand_of(z, variables);
            let b1 = operator_token(o1)->0;
            let b2 = operator_token(o2)->0;
            let r = run_spec(seq![x, o1, y, o2, z], variables, 0, (Seq::empty(), Seq::empty()));
            if binding_level(o1) >= binding_level(o2) && o2 != seq!['*', '*'] {
                r == (
                    seq![TreeView::Binary(b2, Box::new(TreeView::Binary(b1, Box::new(vx), Box::new(vy))), Box::new(vz))],
                    Seq::<Seq<char>>::empty(),
                )
            } else {
                r == (
                    seq![TreeView::Binary(b1, Box::new(vx), Box::new(TreeView::Binary(b2, Box::new(vy), Box::new(vz))))],
                    Seq::<Seq<char>>::empty(),
                )
            }
        }),
{
    let t = seq![x, o1, y, o2, z];
    let vx = operand_of(x, variables);
    let vy = operand_of(y, variables);
    let vz = operand_of(z, variables);
    let b1 = operator_token(o1)->0;
    let b2 = operator_token(o2)->0;
    let e: Seq<TreeView> = Seq::empty();
    let no: Seq<Seq<char>> = Seq::empty();
    assert(is_operator(kind_of(o1)) && binary_of(kind_of(o1)) == Some(b1));
    assert(is_operator(kind_of(o2)) && binary_of(kind_of(o2)) == Some(b2));
    assert(precedence_spec(o1) == binding_level(o1));
    assert(precedence_spec(o2) == binding_level(o2));
    if o2 == seq!['*', '*'] {
        assert(o2.len() == 2);
        assert(o2 != seq!['+'] && o2 != seq!['-'] && o2 != seq!['*'] && o2 != seq!['/']);
        assert(!left_assoc_text(o2));
    } else {
        assert(left_assoc_text(o2));
    }
    let s1 = (e.push(vx), no);
    let s2 = (e.push(vx), no.push(o1));
    let s3 = (e.push(vx).push(vy), no.push(o1));
    assert(reduce_for(s1, o1) == s1);
    assert(!is_sign(kind_of(t[2])));
    assert(!is_sign(kind_of(t[4])));
    assert(run_spec(t, variables, 0, (e, no)) == run_spec(t, variables, 1, s1));
    assert(run_spec(t, variables, 1, s1) == run_spec(t, variables, 2, s2));
    assert(run_spec(t, variables, 2, s2) == run_spec(t, variables, 3, s3));
    if binding_level(o1) >= binding_level(o2) && o2 != seq!['*', '*'] {
        let bl = TreeView::Binary(b1, Box::new(vx), Box::new(vy));
        let s4 = (e.push(bl), no.push(o2));
        let s5 = (e.push(bl).push(vz), no.push(o2));
        let top = TreeView::Binary(b2, Box::new(bl), Box::new(vz));
        assert(apply_spec(s3.0, o1) =~= e.push(bl));
        assert(s3.1.drop_last() =~= no);
        assert(reduce_for((e.push(bl), no), o2) == (e.push(bl), no));
        assert(reduce_for(s3, o2) == (e.push(bl), no));
        assert(run_spec(t, variables, 3, s3) == run_spec(t, variables, 4, s4));
        assert(run_spec(t, variables, 4, s4) == run_spec(t, variables, 5, s5));
        assert(apply_spec(s5.0, o2) =~= seq![top]);
        assert(s5.1.drop_last() =~= no);
        assert(finish_spec((seq![top], no)) == (seq![top], no));
        assert(finish_spec(s5) == (seq![top], no));
    } else {
        let s4 = (e.push(vx).push(vy), no.push(o1).push(o2));
        let s5 = (e.push(vx).push(vy).push(vz), no.push(o1).push(o2));
        let br = TreeView::Binary(b2, Box::new(vy), Box::new(vz));
        let top = TreeView::Binary(b1, Box::new(vx), Box::new(br));
        assert(reduce_for(s3, o2) == s3);
        assert(run_spec(t, variables, 3, s3) == run_spec(t, variables, 4, s4));
        assert(run_spec(t, variables, 4, s4) == run_spec(t, variables, 5, s5));
        assert(apply_spec(s5.0, o2) =~= e.push(vx).push(br));
        assert(s5.1.drop_last() =~= no.push(o1));
        assert(apply_spec(e.push(vx).push(br), o1) =~= seq![top]);
        assert(no.push(o1).drop_last() =~= no);
        assert(finish_spec((seq![top], no)) == (seq![top], no));
        assert(finish_spec((e.push(vx).push(br), no.push(o1))) == (seq![top], no));
        assert(finish_spec(s5) == (seq![top], no));
    }
}

} // verus!

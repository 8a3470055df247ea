//! Properties of the parser and of the evaluator's semantics, proved over
//! the specifications that their functions' contracts use.
use crate::ast::{Expr, ExprView, Stmt, StmtView};
use crate::evaluator::{
    expr_meaning, in_i64, infix_value, prefix_value, program_meaning, seq_meaning, stmt_meaning,
    stops, trunc_div, Bindings, Outcome,
};
use crate::lexer::lemma_lex_step;
use crate::object::Object;
use crate::parser::{
    advance, after, error_text, expr_at, ident_view, infix_at, is_infix_type, let_at,
    operators_after, peek_type, stmt_at, tok_at, type_at,
};
use crate::token::{Prec, Token, TokenType};
use vstd::prelude::*;

verus! {

/// The bytes of `+`, `-`, `*` and `/`.
pub open spec fn is_arith_op(op: Seq<u8>) -> bool {
    op == seq![43u8] || op == seq![45u8] || op == seq![42u8] || op == seq![47u8]
}

/// An expression built only from integer literals, unary minus and the
/// infix operators `+ - * /`.
pub open spec fn is_arith(e: Expr) -> bool
    decreases e,
{
    match e {
        Expr::IntLiteral { .. } => true,
        Expr::Prefix { op, expr, .. } => op@ == seq![45u8] && is_arith(*expr),
        Expr::Infix { left, op, right, .. } => is_arith_op(op@) && is_arith(*left) && is_arith(
            *right,
        ),
        _ => false,
    }
}

/// The value of an arithmetic expression in the integers, division rounding
/// toward zero; `None` where a divisor is zero or a value on the way does
/// not fit in an `i64`.
pub open spec fn arith_value(e: Expr) -> Option<int>
    decreases e,
{
    match e {
        Expr::IntLiteral { value, .. } => Some(value as int),
        Expr::Prefix { expr, .. } => match arith_value(*expr) {
            Some(v) => if in_i64(-v) {
                Some(-v)
            } else {
                None
            },
            None => None,
        },
        Expr::Infix { left, op, right, .. } => match (arith_value(*left), arith_value(*right)) {
            (Some(a), Some(b)) => {
                let v = if op@ == seq![43u8] {
                    a + b
                } else if op@ == seq![45u8] {
                    a - b
                } else if op@ == seq![42u8] {
                    a * b
                } else {
                    trunc_div(a, b)
                };
                if (op@ == seq![47u8] && b == 0) || !in_i64(v) {
                    None
                } else {
                    Some(v)
                }
            },
            _ => None,
        },
        _ => None,
    }
}

/// The operator spellings differ from one another.
proof fn lemma_ops_distinct()
    ensures
        seq![43u8] != seq![45u8],
        seq![43u8] != seq![42u8],
        seq![43u8] != seq![47u8],
        seq![45u8] != seq![42u8],
        seq![45u8] != seq![47u8],
        seq![42u8] != seq![47u8],
        seq![33u8] != seq![45u8],
        seq![60u8] != seq![42u8],
        seq![60u8] != seq![45u8],
        seq![60u8] != seq![43u8],
        seq![60u8] != seq![47u8],
        seq![62u8] != seq![42u8],
        seq![62u8] != seq![45u8],
        seq![62u8] != seq![43u8],
        seq![62u8] != seq![47u8],
        seq![62u8] != seq![60u8],
        seq![61u8, 61u8] != seq![33u8, 61u8],
{
    assert(seq![43u8][0] != seq![45u8][0]);
    assert(seq![43u8][0] != seq![42u8][0]);
    assert(seq![43u8][0] != seq![47u8][0]);
    assert(seq![45u8][0] != seq![42u8][0]);
    assert(seq![45u8][0] != seq![47u8][0]);
    assert(seq![42u8][0] != seq![47u8][0]);
    assert(seq![33u8][0] != seq![45u8][0]);
    assert(seq![60u8][0] != seq![42u8][0]);
    assert(seq![60u8][0] != seq![45u8][0]);
    assert(seq![60u8][0] != seq![43u8][0]);
    assert(seq![60u8][0] != seq![47u8][0]);
    assert(seq![62u8][0] != seq![42u8][0]);
    assert(seq![62u8][0] != seq![45u8][0]);
    assert(seq![62u8][0] != seq![43u8][0]);
    assert(seq![62u8][0] != seq![47u8][0]);
    assert(seq![62u8][0] != seq![60u8][0]);
    assert(seq![61u8, 61u8][0] != seq![33u8, 61u8][0]);
}

/// Integer arithmetic: an expression of literals, unary minus and `+ - * /`
/// evaluates to its value in standard arithmetic, with division truncating
/// toward zero, whenever every value on the way fits in an `i64` and no
/// divisor is zero; otherwise its evaluation fails. It binds nothing.
pub proof fn lemma_arith_eval(e: Expr, env: Bindings)
    requires
        is_arith(e),
    ensures
        expr_meaning(e, env).1 == env,
        match arith_value(e) {
            Some(v) => expr_meaning(e, env).0 == Ok::<Object, &'static str>(
                Object::Integer(v as i64),
            ),
            None => expr_meaning(e, env).0 is Err,
        },
    decreases e,
{
    lemma_ops_distinct();
    match e {
        Expr::Prefix { expr, .. } => {
            lemma_arith_eval(*expr, env);
        },
        Expr::Infix { left, right, .. } => {
            lemma_arith_eval(*left, env);
            lemma_arith_eval(*right, env);
        },
        _ => {},
    }
}

/// Comparisons are total over operands of one kind and refused across
/// kinds: two integers compare with `< > == !=`, two booleans with `== !=`,
/// and an integer with a boolean, either way round, is an error under any
/// operator.
pub proof fn lemma_comparisons(op: Seq<u8>, a: i64, b: i64, p: bool, q: bool)
    ensures
        infix_value(seq![60u8], Object::Integer(a), Object::Integer(b)) == Ok::<
            Object,
            &'static str,
        >(Object::Bool(a < b)),
        infix_value(seq![62u8], Object::Integer(a), Object::Integer(b)) == Ok::<
            Object,
            &'static str,
        >(Object::Bool(a > b)),
        infix_value(seq![61u8, 61u8], Object::Integer(a), Object::Integer(b)) == Ok::<
            Object,
            &'static str,
        >(Object::Bool(a == b)),
        infix_value(seq![33u8, 61u8], Object::Integer(a), Object::Integer(b)) == Ok::<
            Object,
            &'static str,
        >(Object::Bool(a != b)),
        infix_value(seq![61u8, 61u8], Object::Bool(p), Object::Bool(q)) == Ok::<
            Object,
            &'static str,
        >(Object::Bool(p == q)),
        infix_value(seq![33u8, 61u8], Object::Bool(p), Object::Bool(q)) == Ok::<
            Object,
            &'static str,
        >(Object::Bool(p != q)),
        infix_value(op, Object::Integer(a), Object::Bool(q)) is Err,
        infix_value(op, Object::Bool(p), Object::Integer(b)) is Err,
{
    lemma_ops_distinct();
}

/// Logical negation keeps a boolean a boolean, and applying it twice gives
/// back the value; it refuses every other kind of operand.
pub proof fn lemma_bang(v: Object)
    ensures
        v matches Object::Bool(b) ==> prefix_value(seq![33u8], v) == Ok::<Object, &'static str>(
            Object::Bool(!b),
        ) && prefix_value(seq![33u8], Object::Bool(!b)) == Ok::<Object, &'static str>(v),
        !(v is Bool) ==> prefix_value(seq![33u8], v) is Err,
{
}

/// A conditional evaluates exactly one branch: with a true condition the
/// alternative plays no part, with a false one the consequence plays no
/// part, and a false condition without an alternative yields null.
pub proof fn lemma_conditional_one_branch(
    token: Token,
    condition: Expr,
    consequence: Stmt,
    other_consequence: Stmt,
    alternative: Option<Box<Stmt>>,
    other_alternative: Option<Box<Stmt>>,
    env: Bindings,
)
    ensures
        ({
            let (c, env1) = expr_meaning(condition, env);
            let e = Expr::If {
                token,
                condition: Box::new(condition),
                consequence: Box::new(consequence),
                alternative,
            };
            let e_other_alt = Expr::If {
                token,
                condition: Box::new(condition),
                consequence: Box::new(consequence),
                alternative: other_alternative,
            };
            let e_other_cons = Expr::If {
                token,
                condition: Box::new(condition),
                consequence: Box::new(other_consequence),
                alternative,
            };
            &&& c == Ok::<Object, &'static str>(Object::Bool(true)) ==> expr_meaning(e, env)
                == stmt_meaning(consequence, env1) && expr_meaning(e_other_alt, env) == expr_meaning(
                e,
                env,
            )
            &&& c == Ok::<Object, &'static str>(Object::Bool(false)) ==> expr_meaning(e_other_cons, env)
                == expr_meaning(e, env)
            &&& (c == Ok::<Object, &'static str>(Object::Bool(false)) && alternative is None)
                ==> expr_meaning(e, env) == (Ok::<Object, &'static str>(Object::Null), env1)
        }),
{
}

/// Once a statement sequence has stopped, by an error or a `return`,
/// statements after it make no difference: appending more statements leaves
/// the outcome and the bindings as they were.
pub proof fn lemma_stop_ignores_rest(
    ss: Seq<Stmt>,
    rest: Seq<Stmt>,
    i: int,
    env: Bindings,
    prev: Outcome,
)
    requires
        0 <= i <= ss.len(),
        !stops(prev),
        stops(seq_meaning(ss, i, env, prev).0),
    ensures
        seq_meaning(ss + rest, i, env, prev) == seq_meaning(ss, i, env, prev),
    decreases ss.len() - i,
{
    if i < ss.len() {
        assert((ss + rest)[i] == ss[i]);
        let (r, env1) = stmt_meaning(ss[i], env);
        if !stops(r) {
            lemma_stop_ignores_rest(ss, rest, i + 1, env1, r);
        }
    }
}

/// `return` ends a program at any depth of nesting: when the statements of a
/// program stop, the program's outcome does not depend on any statement
/// that follows them, and a block that stops passes its outcome on
/// unchanged to the sequence around it.
pub proof fn lemma_return_aborts(
    ss: Seq<Stmt>,
    rest: Seq<Stmt>,
    block: Stmt,
    outer: Seq<Stmt>,
    j: int,
    env: Bindings,
)
    requires
        stops(seq_meaning(ss, 0, env, Ok(Object::Null)).0),
    ensures
        program_meaning(ss + rest, env) == program_meaning(ss, env),
        (block is Block && stops(stmt_meaning(block, env).0) && 0 <= j < outer.len() && outer[j]
            == block) ==> seq_meaning(outer, j, env, Ok(Object::Null)) == stmt_meaning(block, env),
{
    lemma_stop_ignores_rest(ss, rest, 0, env, Ok(Object::Null));
}

/// A `let` makes its name visible to what follows: after a `let` whose value
/// evaluates to `v`, the name evaluates to `v`; a name that was never bound
/// is an error.
pub proof fn lemma_let_visible(
    let_token: Token,
    name_token: Token,
    name: &[u8],
    value: Expr,
    use_token: Token,
    use_name: &[u8],
    env: Bindings,
)
    requires
        use_name@ == name@,
    ensures
        ({
            let let_stmt = Stmt::Let {
                token: let_token,
                name: Expr::Identifier { token: name_token, value: name },
                value,
            };
            let use_expr = Expr::Identifier { token: use_token, value: use_name };
            let (r, env1) = expr_meaning(value, env);
            let (lr, env2) = stmt_meaning(let_stmt, env);
            r matches Ok(v) ==> lr == Ok::<Object, &'static str>(Object::Null) && expr_meaning(
                use_expr,
                env2,
            ) == (Ok::<Object, &'static str>(v), env2)
        }),
        !env.contains_key(use_name@) ==> expr_meaning(
            Expr::Identifier { token: use_token, value: use_name },
            env,
        ).0 == Err::<Object, &'static str>("variable not found"),
{
}

/// The infix expression that the parser builds from an operator token and
/// two operands.
pub open spec fn infix_view(op: (TokenType, Seq<u8>), left: ExprView, right: ExprView) -> ExprView {
    ExprView::Infix { token: op, left: Box::new(left), op: op.1, right: Box::new(right) }
}

/// Parsing makes precedence explicit: where the tokens from position `p0`
/// read `a o1 b o2 c` (three identifiers and two infix operators) followed
/// by a token that continues no expression, the expression parsed there
/// groups `b` with the operator that binds tighter, and with `o1` when the
/// two bind equally (left associativity): the tree is `((a o1 b) o2 c)` or
/// `(a o1 (b o2 c))`, which is how its canonical text prints it.
pub proof fn lemma_precedence_grouping(s: Seq<u8>, p0: int, errors: Seq<Seq<char>>)
    requires
        type_at(s, p0) == TokenType::IDENT,
        is_infix_type(type_at(s, after(s, p0))),
        type_at(s, after(s, after(s, p0))) == TokenType::IDENT,
        is_infix_type(type_at(s, after(s, after(s, after(s, p0))))),
        type_at(s, after(s, after(s, after(s, after(s, p0))))) == TokenType::IDENT,
        !is_infix_type(type_at(s, after(s, after(s, after(s, after(s, after(s, p0))))))),
        type_at(s, after(s, after(s, after(s, after(s, after(s, p0)))))) != TokenType::LPAREN,
    ensures
        ({
            let p1 = after(s, p0);
            let p2 = after(s, p1);
            let p3 = after(s, p2);
            let p4 = after(s, p3);
            let a = ident_view(tok_at(s, p0));
            let b = ident_view(tok_at(s, p2));
            let c = ident_view(tok_at(s, p4));
            let o1 = tok_at(s, p1);
            let o2 = tok_at(s, p3);
            let tree = if o1.0.spec_precedence().spec_level() >= o2.0.spec_precedence().spec_level() {
                infix_view(o2, infix_view(o1, a, b), c)
            } else {
                infix_view(o1, a, infix_view(o2, b, c))
            };
            expr_at(s, (p0, errors), Prec::Lowest) == (Some(tree), (p4, errors))
        }),
{
    let p1 = after(s, p0);
    let p2 = after(s, p1);
    let p3 = after(s, p2);
    let p4 = after(s, p3);
    let p5 = after(s, p4);
    lemma_lex_step(s, p0);
    lemma_lex_step(s, p1);
    lemma_lex_step(s, p2);
    lemma_lex_step(s, p3);
    lemma_lex_step(s, p4);
    let a = ident_view(tok_at(s, p0));
    let b = ident_view(tok_at(s, p2));
    let c = ident_view(tok_at(s, p4));
    let o1 = tok_at(s, p1);
    let o2 = tok_at(s, p3);
    let l1 = o1.0.spec_precedence();
    let l2 = o2.0.spec_precedence();
    assert(type_at(s, p5).spec_precedence() == Prec::Lowest);
    assert(l1.spec_level() > 0 && l2.spec_level() > 0);
    // `c` ends every expression that reaches it.
    assert forall|prec: Prec, e: ExprView|
        #![trigger operators_after(s, (p4, errors), prec, e)]
        operators_after(s, (p4, errors), prec, e) == (Some(e), (p4, errors)) by {}
    assert(expr_at(s, (p4, errors), l2) == (Some(c), (p4, errors)));
    assert(infix_at(s, (p3, errors), b) == (Some(infix_view(o2, b, c)), (p4, errors)));
    if l1.spec_level() >= l2.spec_level() {
        assert(operators_after(s, (p2, errors), l1, b) == (Some(b), (p2, errors)));
        assert(expr_at(s, (p2, errors), l1) == (Some(b), (p2, errors)));
        assert(infix_at(s, (p1, errors), a) == (Some(infix_view(o1, a, b)), (p2, errors)));
        assert(infix_at(s, (p3, errors), infix_view(o1, a, b)) == (
            Some(infix_view(o2, infix_view(o1, a, b), c)),
            (p4, errors),
        ));
        let t1 = infix_view(o2, infix_view(o1, a, b), c);
        assert(advance(s, (p2, errors)) == (p3, errors));
        assert(operators_after(s, (p4, errors), Prec::Lowest, t1) == (Some(t1), (p4, errors)));
        assert(operators_after(s, (p2, errors), Prec::Lowest, infix_view(o1, a, b)) == (
            Some(infix_view(o2, infix_view(o1, a, b), c)),
            (p4, errors),
        ));
        assert(operators_after(s, (p0, errors), Prec::Lowest, a) == (
            Some(infix_view(o2, infix_view(o1, a, b), c)),
            (p4, errors),
        ));
    } else {
        assert(advance(s, (p2, errors)) == (p3, errors));
        assert(advance(s, (p0, errors)) == (p1, errors));
        assert(operators_after(s, (p4, errors), l1, infix_view(o2, b, c)) == (
            Some(infix_view(o2, b, c)),
            (p4, errors),
        ));
        assert(operators_after(s, (p2, errors), l1, b) == (
            Some(infix_view(o2, b, c)),
            (p4, errors),
        ));
        assert(expr_at(s, (p2, errors), l1) == (Some(infix_view(o2, b, c)), (p4, errors)));
        assert(infix_at(s, (p1, errors), a) == (
            Some(infix_view(o1, a, infix_view(o2, b, c))),
            (p4, errors),
        ));
        let t2 = infix_view(o1, a, infix_view(o2, b, c));
        assert(operators_after(s, (p4, errors), Prec::Lowest, t2) == (Some(t2), (p4, errors)));
        assert(operators_after(s, (p0, errors), Prec::Lowest, a) == (
            Some(infix_view(o1, a, infix_view(o2, b, c))),
            (p4, errors),
        ));
    }
}

/// A malformed `let` fails alone: when the token after `let` is not an
/// identifier, or the one after the identifier is not `=`, the statement
/// yields nothing, records exactly one error naming the category expected
/// and the one found, and leaves the parse on a token from which it goes on
/// with the next statement.
pub proof fn lemma_malformed_let(s: Seq<u8>, p0: int, errors: Seq<Seq<char>>)
    requires
        type_at(s, p0) == TokenType::LET,
    ensures
        peek_type(s, p0) != TokenType::IDENT ==> stmt_at(s, (p0, errors)) == (
            None::<StmtView>,
            (p0, errors.push(error_text(TokenType::IDENT, peek_type(s, p0)))),
        ),
        ({
            let p1 = after(s, p0);
            (peek_type(s, p0) == TokenType::IDENT && peek_type(s, p1) != TokenType::ASSIGN)
                ==> stmt_at(s, (p0, errors)) == (
                None::<StmtView>,
                (p1, errors.push(error_text(TokenType::ASSIGN, peek_type(s, p1)))),
            )
        }),
{
    assert(stmt_at(s, (p0, errors)) == let_at(s, (p0, errors)));
}

} // verus!

use crate::ast::{
    expr_view, lemma_exprs_view_push, lemma_stmts_view_push, stmt_view, token_view,
    vec_exprs_view, vec_stmts_view, Expr, ExprView, Program, Stmt, StmtView, TokenView,
};
use crate::lexer::{is_digit_byte, lemma_lex_step, lex_next, Lexer};
use crate::token::{Prec, Token, TokenType};
use vstd::prelude::*;

verus! {

/// Where a parse stands: the scanner position at which the current token
/// starts (whitespace before it included), and the syntax errors so far.
pub type ParseState = (int, Seq<Seq<char>>);

/// The token scanned from position `at`, as plain values.
pub open spec fn tok_at(s: Seq<u8>, at: int) -> TokenView {
    (lex_next(s, at).0, lex_next(s, at).1)
}

pub open spec fn type_at(s: Seq<u8>, at: int) -> TokenType {
    lex_next(s, at).0
}

/// The position after the token scanned from `at`.
pub open spec fn after(s: Seq<u8>, at: int) -> int {
    lex_next(s, at).2
}

/// The category of the token after the current one.
pub open spec fn peek_type(s: Seq<u8>, at: int) -> TokenType {
    type_at(s, after(s, at))
}

/// Moving to the next token.
pub open spec fn advance(s: Seq<u8>, st: ParseState) -> ParseState {
    (after(s, st.0), st.1)
}

/// The message recorded when the next token is not of the expected category.
pub open spec fn error_text(expect: TokenType, got: TokenType) -> Seq<char> {
    "expected next token to be "@ + expect.spec_name()@ + ", instead got "@ + got.spec_name()@
}

/// Moving to the next token when it is of category `t`; otherwise staying
/// and recording an error that names `t` and the category found.
pub open spec fn expect_peek(s: Seq<u8>, st: ParseState, t: TokenType) -> (bool, ParseState) {
    if peek_type(s, st.0) == t {
        (true, advance(s, st))
    } else {
        (false, (st.0, st.1.push(error_text(t, peek_type(s, st.0)))))
    }
}

/// Moving past an optional `;` after the current token.
pub open spec fn skip_semicolon(s: Seq<u8>, st: ParseState) -> ParseState {
    if peek_type(s, st.0) == TokenType::SEMICOLON {
        advance(s, st)
    } else {
        st
    }
}

/// Whether the parse moved forward from `from` to `to`, staying in the input.
pub open spec fn moved_on(s: Seq<u8>, from: ParseState, to: ParseState) -> bool {
    from.0 < to.0 <= s.len()
}

/// Whether the parse did not move back from `from` to `to`.
pub open spec fn kept_on(s: Seq<u8>, from: ParseState, to: ParseState) -> bool {
    from.0 <= to.0 <= s.len()
}

pub open spec fn push_some<T>(acc: Seq<T>, x: Option<T>) -> Seq<T> {
    match x {
        Some(v) => acc.push(v),
        None => acc,
    }
}

/// An identifier expression made from a token.
pub open spec fn ident_view(t: TokenView) -> ExprView {
    ExprView::Identifier { token: t, value: t.1 }
}

pub open spec fn all_digits(d: Seq<u8>) -> bool {
    forall|i: int| 0 <= i < d.len() ==> is_digit_byte(#[trigger] d[i])
}

/// The number that a run of decimal digits spells.
pub open spec fn digits_value(d: Seq<u8>) -> int
    decreases d.len(),
{
    if d.len() == 0 {
        0
    } else {
        digits_value(d.drop_last()) * 10 + (d.last() - 48)
    }
}

/// A non-empty run of decimal digits read as an `i64`, if it fits.
pub open spec fn parse_i64(d: Seq<u8>) -> Option<i64> {
    if d.len() > 0 && all_digits(d) && digits_value(d) <= i64::MAX {
        Some(digits_value(d) as i64)
    } else {
        None
    }
}

pub open spec fn int_literal_view(t: TokenView) -> Option<ExprView> {
    match parse_i64(t.1) {
        Some(v) => Some(ExprView::IntLiteral { token: t, value: v }),
        None => None,
    }
}

pub open spec fn is_infix_type(t: TokenType) -> bool {
    t == TokenType::PLUS || t == TokenType::MINUS || t == TokenType::FSLASH || t
        == TokenType::MUL || t == TokenType::EQ || t == TokenType::NOTEQ || t == TokenType::LT
        || t == TokenType::GT
}

/// A statement from the current token: `let`, `return`, or an expression.
/// A statement that fails yields `None`.
pub open spec fn stmt_at(s: Seq<u8>, st: ParseState) -> (Option<StmtView>, ParseState)
    decreases s.len() - st.0, 10int,
{
    let t = type_at(s, st.0);
    if t == TokenType::LET {
        let_at(s, st)
    } else if t == TokenType::RETURN {
        return_at(s, st)
    } else {
        expr_stmt_at(s, st)
    }
}

/// `let <ident> = <expr>` with an optional `;`.
pub open spec fn let_at(s: Seq<u8>, st: ParseState) -> (Option<StmtView>, ParseState)
    decreases s.len() - st.0, 9int,
{
    if type_at(s, st.0) == TokenType::EOF {
        (None, st)
    } else {
        let token = tok_at(s, st.0);
        let (ok1, st1) = expect_peek(s, st, TokenType::IDENT);
        if !ok1 {
            (None, st1)
        } else {
            let name = ident_view(tok_at(s, st1.0));
            let (ok2, st2) = expect_peek(s, st1, TokenType::ASSIGN);
            if !ok2 {
                (None, st2)
            } else {
                proof {
                    lemma_lex_step(s, st.0);
                    lemma_lex_step(s, st1.0);
                    lemma_lex_step(s, st2.0);
                }
                let st3 = advance(s, st2);
                let (value, st4) = expr_at(s, st3, Prec::Lowest);
                let st5 = skip_semicolon(s, st4);
                match value {
                    Some(v) => (Some(StmtView::Let { token, name, value: v }), st5),
                    None => (None, st5),
                }
            }
        }
    }
}

/// `return <expr>` with an optional `;`.
pub open spec fn return_at(s: Seq<u8>, st: ParseState) -> (Option<StmtView>, ParseState)
    decreases s.len() - st.0, 9int,
{
    if type_at(s, st.0) == TokenType::EOF {
        (None, st)
    } else {
        proof {
            lemma_lex_step(s, st.0);
        }
        let token = tok_at(s, st.0);
        let st1 = advance(s, st);
        let (value, st2) = expr_at(s, st1, Prec::Lowest);
        let st3 = skip_semicolon(s, st2);
        match value {
            Some(v) => (Some(StmtView::Return { token, value: v }), st3),
            None => (None, st3),
        }
    }
}

/// An expression with an optional `;`.
pub open spec fn expr_stmt_at(s: Seq<u8>, st: ParseState) -> (Option<StmtView>, ParseState)
    decreases s.len() - st.0, 9int,
{
    let (e, st1) = expr_at(s, st, Prec::Lowest);
    let st2 = skip_semicolon(s, st1);
    match e {
        Some(x) => (Some(StmtView::Expr { expr: x }), st2),
        None => (None, st2),
    }
}

/// An expression whose operators all bind tighter than `prec`: a prefix
/// form chosen by the current token, then the operators and calls that
/// follow it.
pub open spec fn expr_at(s: Seq<u8>, st: ParseState, prec: Prec) -> (Option<ExprView>, ParseState)
    decreases s.len() - st.0, 8int,
{
    let t = tok_at(s, st.0);
    let (left, st1) = if t.0 == TokenType::FUNCTION {
        fn_literal_at(s, st)
    } else if t.0 == TokenType::LPAREN {
        group_at(s, st)
    } else if t.0 == TokenType::IF {
        if_at(s, st)
    } else if t.0 == TokenType::TRUE || t.0 == TokenType::FALSE {
        (Some(ExprView::BoolLiteral { token: t, value: t.0 == TokenType::TRUE }), st)
    } else if t.0 == TokenType::IDENT {
        (Some(ident_view(t)), st)
    } else if t.0 == TokenType::INT {
        (int_literal_view(t), st)
    } else if t.0 == TokenType::BANG || t.0 == TokenType::MINUS {
        prefix_at(s, st)
    } else {
        (None, st)
    };
    match left {
        None => (None, st1),
        Some(l) => if kept_on(s, st, st1) {
            operators_after(s, st1, prec, l)
        } else {
            (None, st1)
        },
    }
}

/// Extends `left` with the operators and calls after it that bind tighter
/// than `prec`; equal binding strength associates to the left.
pub open spec fn operators_after(s: Seq<u8>, st: ParseState, prec: Prec, left: ExprView) -> (
    Option<ExprView>,
    ParseState,
)
    decreases s.len() - st.0, 6int,
{
    let pt = peek_type(s, st.0);
    if pt == TokenType::SEMICOLON || prec.spec_level() >= pt.spec_precedence().spec_level() {
        (Some(left), st)
    } else {
        proof {
            lemma_lex_step(s, st.0);
            lemma_lex_step(s, after(s, st.0));
        }
        let st1 = advance(s, st);
        let (r, st2) = if is_infix_type(pt) {
            infix_at(s, st1, left)
        } else if pt == TokenType::LPAREN {
            call_at(s, st1, left)
        } else {
            (Some(left), st)
        };
        if !(is_infix_type(pt) || pt == TokenType::LPAREN) {
            (Some(left), st)
        } else {
            match r {
                None => (None, st2),
                Some(e) => if moved_on(s, st, st2) {
                    operators_after(s, st2, prec, e)
                } else {
                    (None, st2)
                },
            }
        }
    }
}

/// The right operand of the infix operator that is the current token.
pub open spec fn infix_at(s: Seq<u8>, st: ParseState, left: ExprView) -> (
    Option<ExprView>,
    ParseState,
)
    decreases s.len() - st.0, 7int,
{
    if type_at(s, st.0) == TokenType::EOF {
        (None, st)
    } else {
        proof {
            lemma_lex_step(s, st.0);
        }
        let token = tok_at(s, st.0);
        let st1 = advance(s, st);
        let (right, st2) = expr_at(s, st1, token.0.spec_precedence());
        match right {
            Some(r) => (
                Some(
                    ExprView::Infix {
                        token,
                        left: Box::new(left),
                        op: token.1,
                        right: Box::new(r),
                    },
                ),
                st2,
            ),
            None => (None, st2),
        }
    }
}

/// `!` or `-` and its operand.
pub open spec fn prefix_at(s: Seq<u8>, st: ParseState) -> (Option<ExprView>, ParseState)
    decreases s.len() - st.0, 7int,
{
    if type_at(s, st.0) == TokenType::EOF {
        (None, st)
    } else {
        proof {
            lemma_lex_step(s, st.0);
        }
        let token = tok_at(s, st.0);
        let st1 = advance(s, st);
        let (e, st2) = expr_at(s, st1, Prec::Prefix);
        match e {
            Some(x) => (Some(ExprView::Prefix { token, op: token.1, expr: Box::new(x) }), st2),
            None => (None, st2),
        }
    }
}

/// `( <expr> )`.
pub open spec fn group_at(s: Seq<u8>, st: ParseState) -> (Option<ExprView>, ParseState)
    decreases s.len() - st.0, 7int,
{
    if type_at(s, st.0) == TokenType::EOF {
        (None, st)
    } else {
        proof {
            lemma_lex_step(s, st.0);
        }
        let st1 = advance(s, st);
        let (e, st2) = expr_at(s, st1, Prec::Lowest);
        let (ok, st3) = expect_peek(s, st2, TokenType::RPAREN);
        if !ok {
            (None, st3)
        } else {
            (e, st3)
        }
    }
}

/// `if ( <expr> ) { ... }` with an optional `else { ... }`.
pub open spec fn if_at(s: Seq<u8>, st: ParseState) -> (Option<ExprView>, ParseState)
    decreases s.len() - st.0, 7int,
{
    if type_at(s, st.0) == TokenType::EOF {
        (None, st)
    } else {
        let token = tok_at(s, st.0);
        let (ok1, st1) = expect_peek(s, st, TokenType::LPAREN);
        if !ok1 {
            (None, st1)
        } else {
            proof {
                lemma_lex_step(s, st.0);
                lemma_lex_step(s, st1.0);
            }
            let st2 = advance(s, st1);
            let (condition, st3) = expr_at(s, st2, Prec::Lowest);
            match condition {
                None => (None, st3),
                Some(c) => {
                    let (ok2, st4) = expect_peek(s, st3, TokenType::RPAREN);
                    if !ok2 {
                        (None, st4)
                    } else {
                        let (ok3, st5) = expect_peek(s, st4, TokenType::LBRACE);
                        if !ok3 {
                            (None, st5)
                        } else if !moved_on(s, st, st5) {
                            (None, st5)
                        } else {
                            let (consequence, st6) = block_at(s, st5);
                            if peek_type(s, st6.0) == TokenType::ELSE {
                                let st7 = advance(s, st6);
                                let (ok4, st8) = expect_peek(s, st7, TokenType::LBRACE);
                                if !ok4 {
                                    (None, st8)
                                } else if !moved_on(s, st, st8) {
                                    (None, st8)
                                } else {
                                    let (alternative, st9) = block_at(s, st8);
                                    (
                                        Some(
                                            ExprView::If {
                                                token,
                                                condition: Box::new(c),
                                                consequence: Box::new(consequence),
                                                alternative: Some(Box::new(alternative)),
                                            },
                                        ),
                                        st9,
                                    )
                                }
                            } else {
                                (
                                    Some(
                                        ExprView::If {
                                            token,
                                            condition: Box::new(c),
                                            consequence: Box::new(consequence),
                                            alternative: None,
                                        },
                                    ),
                                    st6,
                                )
                            }
                        }
                    }
                },
            }
        }
    }
}

/// A block from its `{`: statements up to the `}` or the end of the input.
pub open spec fn block_at(s: Seq<u8>, st: ParseState) -> (StmtView, ParseState)
    decreases s.len() - st.0, 12int,
{
    let token = tok_at(s, st.0);
    let (stmts, st1) = block_items(s, st, Seq::empty());
    (StmtView::Block { token, stmts }, st1)
}

/// The statements of a block from the current token on, after `acc`.
pub open spec fn block_items(s: Seq<u8>, st: ParseState, acc: Seq<StmtView>) -> (
    Seq<StmtView>,
    ParseState,
)
    decreases s.len() - st.0, 11int,
{
    let t = type_at(s, st.0);
    if t == TokenType::RBRACE || t == TokenType::EOF {
        (acc, st)
    } else {
        let (r, st1) = stmt_at(s, st);
        let st2 = advance(s, st1);
        let acc2 = push_some(acc, r);
        if moved_on(s, st, st2) {
            block_items(s, st2, acc2)
        } else {
            (acc2, st2)
        }
    }
}

/// `fn ( <params> ) { ... }`.
pub open spec fn fn_literal_at(s: Seq<u8>, st: ParseState) -> (Option<ExprView>, ParseState)
    decreases s.len() - st.0, 7int,
{
    if type_at(s, st.0) == TokenType::EOF {
        (None, st)
    } else {
        let token = tok_at(s, st.0);
        let (ok1, st1) = expect_peek(s, st, TokenType::LPAREN);
        if !ok1 {
            (None, st1)
        } else {
            let (parameters, st2) = params_at(s, st1);
            let (ok2, st3) = expect_peek(s, st2, TokenType::LBRACE);
            if !ok2 {
                (None, st3)
            } else if !moved_on(s, st, st3) {
                (None, st3)
            } else {
                let (block, st4) = block_at(s, st3);
                (
                    Some(ExprView::FnLiteral { token, parameters, block: Box::new(block) }),
                    st4,
                )
            }
        }
    }
}

/// The parameter list after the current `(`; a list without its `)` is empty.
pub open spec fn params_at(s: Seq<u8>, st: ParseState) -> (Seq<ExprView>, ParseState) {
    if peek_type(s, st.0) == TokenType::RPAREN {
        (Seq::empty(), advance(s, st))
    } else {
        let st1 = advance(s, st);
        params_rest(s, st1, seq![ident_view(tok_at(s, st1.0))])
    }
}

pub open spec fn params_rest(s: Seq<u8>, st: ParseState, acc: Seq<ExprView>) -> (
    Seq<ExprView>,
    ParseState,
)
    decreases s.len() - st.0,
{
    if peek_type(s, st.0) == TokenType::COMMA {
        proof {
            lemma_lex_step(s, st.0);
            lemma_lex_step(s, after(s, st.0));
        }
        let st1 = advance(s, advance(s, st));
        params_rest(s, st1, acc.push(ident_view(tok_at(s, st1.0))))
    } else {
        let (ok, st1) = expect_peek(s, st, TokenType::RPAREN);
        if ok {
            (acc, st1)
        } else {
            (Seq::empty(), st1)
        }
    }
}

/// A call of `function` whose `(` is the current token.
pub open spec fn call_at(s: Seq<u8>, st: ParseState, function: ExprView) -> (
    Option<ExprView>,
    ParseState,
)
    decreases s.len() - st.0, 7int,
{
    let (arguments, st1) = args_at(s, st);
    (
        Some(
            ExprView::Call { token: tok_at(s, st1.0), function: Box::new(function), arguments },
        ),
        st1,
    )
}

/// The argument list after the current `(`; a list without its `)` is empty.
pub open spec fn args_at(s: Seq<u8>, st: ParseState) -> (Seq<ExprView>, ParseState)
    decreases s.len() - st.0, 5int,
{
    if peek_type(s, st.0) == TokenType::RPAREN {
        (Seq::empty(), advance(s, st))
    } else if type_at(s, st.0) == TokenType::EOF {
        (Seq::empty(), st)
    } else {
        proof {
            lemma_lex_step(s, st.0);
        }
        let st1 = advance(s, st);
        let (e, st2) = expr_at(s, st1, Prec::Lowest);
        if kept_on(s, st, st2) {
            args_rest(s, st2, push_some(Seq::empty(), e))
        } else {
            (Seq::empty(), st2)
        }
    }
}

pub open spec fn args_rest(s: Seq<u8>, st: ParseState, acc: Seq<ExprView>) -> (
    Seq<ExprView>,
    ParseState,
)
    decreases s.len() - st.0, 4int,
{
    if peek_type(s, st.0) == TokenType::COMMA {
        proof {
            lemma_lex_step(s, st.0);
            lemma_lex_step(s, after(s, st.0));
        }
        let st1 = advance(s, advance(s, st));
        let (e, st2) = expr_at(s, st1, Prec::Lowest);
        if moved_on(s, st, st2) {
            args_rest(s, st2, push_some(acc, e))
        } else {
            (push_some(acc, e), st2)
        }
    } else {
        let (ok, st1) = expect_peek(s, st, TokenType::RPAREN);
        if ok {
            (acc, st1)
        } else {
            (Seq::empty(), st1)
        }
    }
}

/// The statements of a program from the current token to the end of the
/// input, after `acc`; statements that fail are left out.
pub open spec fn program_items(s: Seq<u8>, st: ParseState, acc: Seq<StmtView>) -> (
    Seq<StmtView>,
    ParseState,
)
    decreases s.len() - st.0,
{
    if type_at(s, st.0) == TokenType::EOF {
        (acc, st)
    } else {
        let (r, st1) = stmt_at(s, st);
        let st2 = advance(s, st1);
        let acc2 = push_some(acc, r);
        if moved_on(s, st, st2) {
            program_items(s, st2, acc2)
        } else {
            (acc2, st2)
        }
    }
}

pub open spec fn opt_expr_view(e: Option<Expr>) -> Option<ExprView> {
    match e {
        Some(x) => Some(expr_view(x)),
        None => None,
    }
}

pub open spec fn opt_stmt_view(e: Option<Stmt>) -> Option<StmtView> {
    match e {
        Some(x) => Some(stmt_view(x)),
        None => None,
    }
}

pub open spec fn texts(v: Seq<String>) -> Seq<Seq<char>> {
    v.map_values(|e: String| e@)
}

/// Turns the tokens of a lexer into a program, collecting syntax errors.
pub struct Parser<'a> {
    lexer: Lexer<'a>,
    curr_token: Token<'a>,
    peek_token: Token<'a>,
    pub errors: Vec<String>,
    at: Ghost<int>,
}

/// Whether `t` is one of the eight infix operators.
fn is_infix_operator(t: TokenType) -> (r: bool)
    ensures
        r == is_infix_type(t),
{
    match t {
        TokenType::PLUS | TokenType::MINUS | TokenType::FSLASH | TokenType::MUL | TokenType::EQ
        | TokenType::NOTEQ | TokenType::LT | TokenType::GT => true,
        _ => false,
    }
}

/// Reads a non-empty run of decimal digits as an `i64`.
fn parse_decimal(d: &[u8]) -> (r: Option<i64>)
    ensures
        r == parse_i64(d@),
{
    if d.len() == 0 {
        return None;
    }
    let mut acc: i64 = 0;
    let mut i: usize = 0;
    while i < d.len()
        invariant
            0 <= i <= d@.len(),
            all_digits(d@.subrange(0, i as int)),
            acc == digits_value(d@.subrange(0, i as int)),
            0 <= acc,
        decreases d@.len() - i,
    {
        let b = d[i];
        proof {
            assert(d@.subrange(0, i + 1).drop_last() =~= d@.subrange(0, i as int));
        }
        if b < 48 || b > 57 {
            proof {
                assert(!is_digit_byte(d@[i as int]));
            }
            return None;
        }
        let next = match acc.checked_mul(10) {
            Some(m) => m.checked_add((b - 48) as i64),
            None => None,
        };
        match next {
            Some(v) => {
                acc = v;
            },
            None => {
                proof {
                    assert(digits_value(d@.subrange(0, i + 1)) == acc * 10 + (b - 48));
                    assert(digits_value(d@.subrange(0, i + 1)) > i64::MAX);
                    if all_digits(d@) {
                        lemma_digits_value_grows(d@, i + 1, d@.len() as int);
                        assert(d@.subrange(0, d@.len() as int) =~= d@);
                    }
                }
                return None;
            },
        }
        i = i + 1;
    }
    proof {
        assert(d@.subrange(0, d@.len() as int) =~= d@);
    }
    Some(acc)
}

/// A longer run of digits is worth at least as much as its prefix.
proof fn lemma_digits_value_grows(d: Seq<u8>, j: int, k: int)
    requires
        all_digits(d),
        0 <= j <= k <= d.len(),
    ensures
        digits_value(d.subrange(0, j)) <= digits_value(d.subrange(0, k)),
        0 <= digits_value(d.subrange(0, j)),
    decreases k,
{
    if k > 0 {
        assert(d.subrange(0, k).drop_last() =~= d.subrange(0, k - 1));
        assert(is_digit_byte(d[k - 1]));
        if j < k {
            lemma_digits_value_grows(d, j, k - 1);
        } else {
            lemma_digits_value_grows(d, j - 1, k - 1);
            assert(d.subrange(0, j).drop_last() =~= d.subrange(0, j - 1));
        }
    }
}

impl<'a> Parser<'a> {
    /// The source being parsed.
    pub closed spec fn source(&self) -> Seq<u8> {
        self.lexer.source()
    }

    /// The scanner position of the current token.
    pub closed spec fn at(&self) -> int {
        self.at@
    }

    /// Where the parse stands.
    pub closed spec fn state(&self) -> ParseState {
        (self.at(), texts(self.errors@))
    }

    proof fn lemma_wf(&self)
        requires
            self.wf(),
        ensures
            0 <= self.at() <= self.source().len(),
            self.state().1 == texts(self.errors@),
    {
    }

    pub closed spec fn wf(&self) -> bool {
        let s = self.lexer.source();
        &&& self.lexer.wf()
        &&& 0 <= self.at@ <= s.len()
        &&& token_view(self.curr_token) == tok_at(s, self.at@)
        &&& token_view(self.peek_token) == tok_at(s, after(s, self.at@))
        &&& self.lexer.position() == after(s, after(s, self.at@))
    }

    /// Primes the current and next token from `lexer`.
    pub fn new(mut lexer: Lexer<'a>) -> (r: Self)
        requires
            lexer.wf(),
        ensures
            r.wf(),
            r.source() == lexer.source(),
            r.state() == (lexer.position(), Seq::<Seq<char>>::empty()),
    {
        let ghost at = lexer.position();
        let curr_token = lexer.next_token();
        let peek_token = lexer.next_token();
        proof {
            lexer.lemma_wf();
            lemma_lex_step(lexer.source(), at);
        }
        let r = Parser { lexer, curr_token, peek_token, errors: Vec::new(), at: Ghost(at) };
        assert(texts(r.errors@) =~= Seq::<Seq<char>>::empty());
        r
    }

    fn next_token(&mut self)
        requires
            old(self).wf(),
        ensures
            final(self).wf(),
            final(self).source() == old(self).source(),
            final(self).state() == advance(old(self).source(), old(self).state()),
            kept_on(old(self).source(), old(self).state(), final(self).state()),
            type_at(old(self).source(), old(self).at()) != TokenType::EOF ==> old(self).at()
                < final(self).at(),
            type_at(old(self).source(), old(self).at()) == TokenType::EOF ==> final(self).at()
                == old(self).source().len(),
    {
        let ghost s = self.lexer.source();
        proof {
            lemma_lex_step(s, self.at@);
            lemma_lex_step(s, after(s, self.at@));
        }
        self.curr_token = self.peek_token;
        self.peek_token = self.lexer.next_token();
        self.at = Ghost(after(s, self.at@));
    }

    fn is_curr_token(&self, tok_type: TokenType) -> (r: bool)
        requires
            self.wf(),
        ensures
            r == (type_at(self.source(), self.at()) == tok_type),
    {
        self.curr_token.token_type == tok_type
    }

    fn is_peek_token(&self, tok_type: TokenType) -> (r: bool)
        requires
            self.wf(),
        ensures
            r == (peek_type(self.source(), self.at()) == tok_type),
    {
        self.peek_token.token_type == tok_type
    }

    fn advance_if_peek(&mut self, tok_type: TokenType) -> (r: bool)
        requires
            old(self).wf(),
        ensures
            final(self).wf(),
            final(self).source() == old(self).source(),
            (r, final(self).state()) == expect_peek(old(self).source(), old(self).state(), tok_type),
            kept_on(old(self).source(), old(self).state(), final(self).state()),
    {
        if self.is_peek_token(tok_type) {
            self.next_token();
            true
        } else {
            self.add_error(tok_type);
            false
        }
    }

    fn add_error(&mut self, expect: TokenType)
        requires
            old(self).wf(),
        ensures
            final(self).wf(),
            final(self).source() == old(self).source(),
            final(self).state() == (
                old(self).at(),
                old(self).state().1.push(
                    error_text(expect, peek_type(old(self).source(), old(self).at())),
                ),
            ),
            final(self).at() == old(self).at(),
    {
        let mut error_msg = String::new();
        error_msg.append("expected next token to be ");
        error_msg.append(expect.name());
        error_msg.append(", instead got ");
        error_msg.append(self.peek_token.token_type.name());
        let ghost old_errors = self.errors@;
        self.errors.push(error_msg);
        proof {
            assert(texts(self.errors@) =~= texts(old_errors).push(error_msg@));
            assert(error_msg@ =~= error_text(expect, self.peek_token.token_type));
        }
    }
    /// Parses the whole input into a program. The program comes back only
    /// when no syntax error was recorded; otherwise all recorded errors do.
    pub fn parse(&mut self) -> (r: Result<Program<'a>, Vec<String>>)
        requires
            old(self).wf(),
        ensures
            final(self).wf(),
            final(self).source() == old(self).source(),
            ({
                let (items, st) = program_items(
                    old(self).source(),
                    old(self).state(),
                    Seq::empty(),
                );
                &&& final(self).state() == st
                &&& match r {
                    Ok(p) => st.1.len() == 0 && vec_stmts_view(p.stmts) == items,
                    Err(es) => st.1.len() > 0 && texts(es@) == st.1,
                }
            }),
    {
        let ghost s = self.source();
        let ghost st0 = self.state();
        let mut stmts: Vec<Stmt<'a>> = Vec::new();
        while !self.is_curr_token(TokenType::EOF)
            invariant
                self.wf(),
                self.source() == s,
                program_items(s, st0, Seq::empty()) == program_items(
                    s,
                    self.state(),
                    vec_stmts_view(stmts),
                ),
            decreases s.len() - self.at(),
        {
            let ghost st = self.state();
            let ghost acc = stmts@;
            proof {
                self.lemma_wf();
            }
            if let Some(stmt) = self.parse_stmt() {
                stmts.push(stmt);
                proof {
                    lemma_stmts_view_push(acc, stmt);
                }
            }
            self.next_token();
            proof {
                self.lemma_wf();
            }
        }
        proof {
            self.lemma_wf();
        }
        if self.errors.len() == 0 {
            Ok(Program { stmts })
        } else {
            let mut copies: Vec<String> = Vec::new();
            let mut i: usize = 0;
            while i < self.errors.len()
                invariant
                    0 <= i <= self.errors@.len(),
                    texts(copies@) == texts(self.errors@).subrange(0, i as int),
                decreases self.errors@.len() - i,
            {
                let ghost before = copies@;
                copies.push(self.errors[i].clone());
                proof {
                    assert(texts(copies@) =~= texts(before).push(self.errors@[i as int]@));
                    assert(texts(self.errors@).subrange(0, i + 1) =~= texts(self.errors@).subrange(
                        0,
                        i as int,
                    ).push(self.errors@[i as int]@));
                }
                i = i + 1;
            }
            proof {
                assert(texts(self.errors@).subrange(0, self.errors@.len() as int) =~= texts(
                    self.errors@,
                ));
            }
            Err(copies)
        }
    }

    fn parse_stmt(&mut self) -> (r: Option<Stmt<'a>>)
        requires
            old(self).wf(),
        ensures
            final(self).wf(),
            final(self).source() == old(self).source(),
            (opt_stmt_view(r), final(self).state()) == stmt_at(
                old(self).source(),
                old(self).state(),
            ),
            kept_on(old(self).source(), old(self).state(), final(self).state()),
        decreases old(self).source().len() - old(self).at(), 10int,
    {
        proof {
            self.lemma_wf();
        }
        match self.curr_token.token_type {
            TokenType::LET => self.parse_let_stmt(),
            TokenType::RETURN => self.parse_return_stmt(),
            _ => self.parse_expr_stmt(),
        }
    }

    fn parse_let_stmt(&mut self) -> (r: Option<Stmt<'a>>)
        requires
            old(self).wf(),
            type_at(old(self).source(), old(self).at()) != TokenType::EOF,
        ensures
            final(self).wf(),
            final(self).source() == old(self).source(),
            (opt_stmt_view(r), final(self).state()) == let_at(
                old(self).source(),
                old(self).state(),
            ),
            kept_on(old(self).source(), old(self).state(), final(self).state()),
        decreases old(self).source().len() - old(self).at(), 9int,
    {
        proof {
            self.lemma_wf();
        }
        let token = self.curr_token;
        if !self.advance_if_peek(TokenType::IDENT) {
            return None;
        }
        let name = Expr::Identifier { token: self.curr_token, value: self.curr_token.literal };
        if !self.advance_if_peek(TokenType::ASSIGN) {
            return None;
        }
        self.next_token();
        let value = self.parse_expr(Prec::Lowest);
        if self.is_peek_token(TokenType::SEMICOLON) {
            self.next_token();
        }
        match value {
            Some(v) => Some(Stmt::Let { name, token, value: v }),
            None => None,
        }
    }

    fn parse_return_stmt(&mut self) -> (r: Option<Stmt<'a>>)
        requires
            old(self).wf(),
            type_at(old(self).source(), old(self).at()) != TokenType::EOF,
        ensures
            final(self).wf(),
            final(self).source() == old(self).source(),
            (opt_stmt_view(r), final(self).state()) == return_at(
                old(self).source(),
                old(self).state(),
            ),
            kept_on(old(self).source(), old(self).state(), final(self).state()),
        decreases old(self).source().len() - old(self).at(), 9int,
    {
        proof {
            self.lemma_wf();
        }
        let token = self.curr_token;
        self.next_token();
        let value = self.parse_expr(Prec::Lowest);
        if self.is_peek_token(TokenType::SEMICOLON) {
            self.next_token();
        }
        match value {
            Some(v) => Some(Stmt::Return { token, value: v }),
            None => None,
        }
    }

    fn parse_expr_stmt(&mut self) -> (r: Option<Stmt<'a>>)
        requires
            old(self).wf(),
        ensures
            final(self).wf(),
            final(self).source() == old(self).source(),
            (opt_stmt_view(r), final(self).state()) == expr_stmt_at(
                old(self).source(),
                old(self).state(),
            ),
            kept_on(old(self).source(), old(self).state(), final(self).state()),
        decreases old(self).source().len() - old(self).at(), 9int,
    {
        proof {
            self.lemma_wf();
        }
        let expr = self.parse_expr(Prec::Lowest);
        // optional semicolon
        if self.is_peek_token(TokenType::SEMICOLON) {
            self.next_token();
        }
        match expr {
            Some(e) => Some(Stmt::Expr { expr: e }),
            None => None,
        }
    }

    fn parse_expr(&mut self, prec: Prec) -> (r: Option<Expr<'a>>)
        requires
            old(self).wf(),
        ensures
            final(self).wf(),
            final(self).source() == old(self).source(),
            (opt_expr_view(r), final(self).state()) == expr_at(
                old(self).source(),
                old(self).state(),
                prec,
            ),
            kept_on(old(self).source(), old(self).state(), final(self).state()),
        decreases old(self).source().len() - old(self).at(), 8int,
    {
        let ghost s = self.source();
        let ghost st0 = self.state();
        proof {
            self.lemma_wf();
        }
        // try as prefix first
        let curr_tt = self.curr_token.token_type;
        let left = match curr_tt {
            TokenType::FUNCTION => self.parse_fn_literal(),
            TokenType::LPAREN => self.parse_group_expr(),
            TokenType::IF => self.parse_if_expr(),
            TokenType::TRUE => self.parse_bool_literal(),
            TokenType::FALSE => self.parse_bool_literal(),
            TokenType::IDENT => self.parse_ident(),
            TokenType::INT => self.parse_int_literal(),
            TokenType::BANG => self.parse_prefix_expr(prec),
            TokenType::MINUS => self.parse_prefix_expr(prec),
            _ => None,
        };
        let mut expr = match left {
            Some(e) => e,
            None => {
                return None;
            },
        };
        while !self.is_peek_token(TokenType::SEMICOLON) && prec.level()
            < self.peek_token.token_type.precedence().level()
            invariant
                self.wf(),
                self.source() == s,
                s == old(self).source(),
                st0 == old(self).state(),
                kept_on(s, st0, self.state()),
                expr_at(s, st0, prec) == operators_after(s, self.state(), prec, expr_view(expr)),
            decreases s.len() - self.at(),
        {
            let ghost st_iter = self.state();
            let ghost ev = expr_view(expr);
            proof {
                self.lemma_wf();
                lemma_lex_step(s, self.at());
            }
            let infix = is_infix_operator(self.peek_token.token_type);
            let call = self.is_peek_token(TokenType::LPAREN);
            if infix {
                self.next_token();
                expr = match self.parse_infix_expr(expr) {
                    Some(e) => e,
                    None => {
                        proof {
                            assert(operators_after(s, st_iter, prec, ev) == (
                                None::<ExprView>,
                                self.state(),
                            ));
                        }
                        return None;
                    },
                };
            } else if call {
                self.next_token();
                expr = match self.parse_call_expr(expr) {
                    Some(e) => e,
                    None => {
                        return None;
                    },
                };
            } else {
                return Some(expr);
            }
            proof {
                self.lemma_wf();
            }
        }
        Some(expr)
    }

    fn parse_ident(&self) -> (r: Option<Expr<'a>>)
        requires
            self.wf(),
        ensures
            opt_expr_view(r) == Some(ident_view(tok_at(self.source(), self.at()))),
    {
        Some(Expr::Identifier { token: self.curr_token, value: self.curr_token.literal })
    }

    fn parse_int_literal(&self) -> (r: Option<Expr<'a>>)
        requires
            self.wf(),
        ensures
            opt_expr_view(r) == int_literal_view(tok_at(self.source(), self.at())),
    {
        match parse_decimal(self.curr_token.literal) {
            Some(value) => Some(Expr::IntLiteral { token: self.curr_token, value }),
            None => None,
        }
    }

    fn parse_bool_literal(&self) -> (r: Option<Expr<'a>>)
        requires
            self.wf(),
        ensures
            opt_expr_view(r) == Some(
                ExprView::BoolLiteral {
                    token: tok_at(self.source(), self.at()),
                    value: type_at(self.source(), self.at()) == TokenType::TRUE,
                },
            ),
    {
        Some(
            Expr::BoolLiteral {
                token: self.curr_token,
                value: self.is_curr_token(TokenType::TRUE),
            },
        )
    }

    fn parse_prefix_expr(&mut self, prec: Prec) -> (r: Option<Expr<'a>>)
        requires
            old(self).wf(),
            type_at(old(self).source(), old(self).at()) != TokenType::EOF,
        ensures
            final(self).wf(),
            final(self).source() == old(self).source(),
            (opt_expr_view(r), final(self).state()) == prefix_at(
                old(self).source(),
                old(self).state(),
            ),
            kept_on(old(self).source(), old(self).state(), final(self).state()),
        decreases old(self).source().len() - old(self).at(), 7int,
    {
        proof {
            self.lemma_wf();
        }
        let token = self.curr_token;
        self.next_token();
        match self.parse_expr(Prec::Prefix) {
            Some(expr) => Some(Expr::Prefix { token, op: token.literal, expr: Box::new(expr) }),
            None => None,
        }
    }

    fn parse_infix_expr(&mut self, left: Expr<'a>) -> (r: Option<Expr<'a>>)
        requires
            old(self).wf(),
            type_at(old(self).source(), old(self).at()) != TokenType::EOF,
        ensures
            final(self).wf(),
            final(self).source() == old(self).source(),
            (opt_expr_view(r), final(self).state()) == infix_at(
                old(self).source(),
                old(self).state(),
                expr_view(left),
            ),
            kept_on(old(self).source(), old(self).state(), final(self).state()),
        decreases old(self).source().len() - old(self).at(), 7int,
    {
        proof {
            self.lemma_wf();
        }
        let token = self.curr_token;
        let curr_prec = token.token_type.precedence();
        self.next_token();
        match self.parse_expr(curr_prec) {
            Some(expr) => Some(
                Expr::Infix { token, left: Box::new(left), op: token.literal, right: Box::new(expr) },
            ),
            None => None,
        }
    }

    fn parse_group_expr(&mut self) -> (r: Option<Expr<'a>>)
        requires
            old(self).wf(),
            type_at(old(self).source(), old(self).at()) != TokenType::EOF,
        ensures
            final(self).wf(),
            final(self).source() == old(self).source(),
            (opt_expr_view(r), final(self).state()) == group_at(
                old(self).source(),
                old(self).state(),
            ),
            kept_on(old(self).source(), old(self).state(), final(self).state()),
        decreases old(self).source().len() - old(self).at(), 7int,
    {
        proof {
            self.lemma_wf();
        }
        self.next_token();
        let expr = self.parse_expr(Prec::Lowest);
        if !self.advance_if_peek(TokenType::RPAREN) {
            return None;
        }
        expr
    }

    fn parse_if_expr(&mut self) -> (r: Option<Expr<'a>>)
        requires
            old(self).wf(),
            type_at(old(self).source(), old(self).at()) != TokenType::EOF,
        ensures
            final(self).wf(),
            final(self).source() == old(self).source(),
            (opt_expr_view(r), final(self).state()) == if_at(
                old(self).source(),
                old(self).state(),
            ),
            kept_on(old(self).source(), old(self).state(), final(self).state()),
        decreases old(self).source().len() - old(self).at(), 7int,
    {
        proof {
            self.lemma_wf();
        }
        let token = self.curr_token;
        if !self.advance_if_peek(TokenType::LPAREN) {
            return None;
        }
        self.next_token();
        let condition = self.parse_expr(Prec::Lowest);
        let condition = match condition {
            Some(c) => c,
            None => {
                return None;
            },
        };
        if !self.advance_if_peek(TokenType::RPAREN) {
            return None;
        }
        if !self.advance_if_peek(TokenType::LBRACE) {
            return None;
        }
        proof {
            self.lemma_wf();
        }
        let consequence = self.parse_block_stmt();
        let mut alternative = None;
        if self.is_peek_token(TokenType::ELSE) {
            self.next_token();
            if !self.advance_if_peek(TokenType::LBRACE) {
                return None;
            }
            proof {
                self.lemma_wf();
            }
            alternative = Some(Box::new(self.parse_block_stmt()));
        }
        Some(
            Expr::If {
                token,
                condition: Box::new(condition),
                consequence: Box::new(consequence),
                alternative,
            },
        )
    }

    fn parse_block_stmt(&mut self) -> (r: Stmt<'a>)
        requires
            old(self).wf(),
        ensures
            final(self).wf(),
            final(self).source() == old(self).source(),
            (stmt_view(r), final(self).state()) == block_at(
                old(self).source(),
                old(self).state(),
            ),
            kept_on(old(self).source(), old(self).state(), final(self).state()),
        decreases old(self).source().len() - old(self).at(), 12int,
    {
        let ghost s = self.source();
        let ghost st0 = self.state();
        proof {
            self.lemma_wf();
        }
        let token = self.curr_token;
        let mut stmts: Vec<Stmt<'a>> = Vec::new();
        while !self.is_curr_token(TokenType::RBRACE) && !self.is_curr_token(TokenType::EOF)
            invariant
                self.wf(),
                self.source() == s,
                s == old(self).source(),
                st0 == old(self).state(),
                kept_on(s, st0, self.state()),
                block_items(s, st0, Seq::empty()) == block_items(
                    s,
                    self.state(),
                    vec_stmts_view(stmts),
                ),
            decreases s.len() - self.at(),
        {
            let ghost acc = stmts@;
            proof {
                self.lemma_wf();
            }
            if let Some(s) = self.parse_stmt() {
                stmts.push(s);
                proof {
                    lemma_stmts_view_push(acc, s);
                }
            }
            self.next_token();
            proof {
                self.lemma_wf();
            }
        }
        Stmt::Block { token, stmts }
    }

    fn parse_fn_literal(&mut self) -> (r: Option<Expr<'a>>)
        requires
            old(self).wf(),
            type_at(old(self).source(), old(self).at()) != TokenType::EOF,
        ensures
            final(self).wf(),
            final(self).source() == old(self).source(),
            (opt_expr_view(r), final(self).state()) == fn_literal_at(
                old(self).source(),
                old(self).state(),
            ),
            kept_on(old(self).source(), old(self).state(), final(self).state()),
        decreases old(self).source().len() - old(self).at(), 7int,
    {
        proof {
            self.lemma_wf();
        }
        let token = self.curr_token;
        if !self.advance_if_peek(TokenType::LPAREN) {
            return None;
        }
        let parameters = self.parse_fn_parameters();
        if !self.advance_if_peek(TokenType::LBRACE) {
            return None;
        }
        proof {
            self.lemma_wf();
        }
        let block = self.parse_block_stmt();
        Some(Expr::FnLiteral { token, parameters, block: Box::new(block) })
    }

    fn parse_fn_parameters(&mut self) -> (r: Vec<Expr<'a>>)
        requires
            old(self).wf(),
        ensures
            final(self).wf(),
            final(self).source() == old(self).source(),
            (vec_exprs_view(r), final(self).state()) == params_at(
                old(self).source(),
                old(self).state(),
            ),
            kept_on(old(self).source(), old(self).state(), final(self).state()),
    {
        let ghost s = self.source();
        let ghost st0 = self.state();
        proof {
            self.lemma_wf();
        }
        if self.is_peek_token(TokenType::RPAREN) {
            self.next_token();
            return Vec::new();
        }
        self.next_token();
        let mut params: Vec<Expr<'a>> = Vec::new();
        // first param
        let ident = Expr::Identifier { token: self.curr_token, value: self.curr_token.literal };
        params.push(ident);
        proof {
            lemma_exprs_view_push(Seq::empty(), ident);
            assert(Seq::<Expr>::empty().push(ident) =~= params@);
            assert(seq![ident_view(tok_at(s, self.at()))] =~= Seq::<ExprView>::empty().push(
                expr_view(ident),
            ));
        }
        while self.is_peek_token(TokenType::COMMA)
            invariant
                self.wf(),
                self.source() == s,
                s == old(self).source(),
                st0 == old(self).state(),
                kept_on(s, st0, self.state()),
                params_at(s, st0) == params_rest(s, self.state(), vec_exprs_view(params)),
            decreases s.len() - self.at(),
        {
            let ghost acc = params@;
            proof {
                self.lemma_wf();
                lemma_lex_step(s, self.at());
            }
            self.next_token();
            self.next_token();
            let ident = Expr::Identifier {
                token: self.curr_token,
                value: self.curr_token.literal,
            };
            params.push(ident);
            proof {
                lemma_exprs_view_push(acc, ident);
                self.lemma_wf();
            }
        }
        if !self.advance_if_peek(TokenType::RPAREN) {
            return Vec::new();
        }
        params
    }

    fn parse_call_expr(&mut self, fn_expr: Expr<'a>) -> (r: Option<Expr<'a>>)
        requires
            old(self).wf(),
            type_at(old(self).source(), old(self).at()) != TokenType::EOF,
        ensures
            final(self).wf(),
            final(self).source() == old(self).source(),
            (opt_expr_view(r), final(self).state()) == call_at(
                old(self).source(),
                old(self).state(),
                expr_view(fn_expr),
            ),
            kept_on(old(self).source(), old(self).state(), final(self).state()),
        decreases old(self).source().len() - old(self).at(), 7int,
    {
        let arguments = self.parse_call_args();
        Some(Expr::Call { token: self.curr_token, function: Box::new(fn_expr), arguments })
    }

    fn parse_call_args(&mut self) -> (r: Vec<Expr<'a>>)
        requires
            old(self).wf(),
            type_at(old(self).source(), old(self).at()) != TokenType::EOF,
        ensures
            final(self).wf(),
            final(self).source() == old(self).source(),
            (vec_exprs_view(r), final(self).state()) == args_at(
                old(self).source(),
                old(self).state(),
            ),
            kept_on(old(self).source(), old(self).state(), final(self).state()),
        decreases old(self).source().len() - old(self).at(), 5int,
    {
        let ghost s = self.source();
        let ghost st0 = self.state();
        proof {
            self.lemma_wf();
        }
        if self.is_peek_token(TokenType::RPAREN) {
            self.next_token();
            return Vec::new();
        }
        self.next_token();
        let mut args: Vec<Expr<'a>> = Vec::new();
        if let Some(e) = self.parse_expr(Prec::Lowest) {
            args.push(e);
            proof {
                lemma_exprs_view_push(Seq::empty(), e);
                assert(Seq::<Expr>::empty().push(e) =~= args@);
            }
        }
        while self.is_peek_token(TokenType::COMMA)
            invariant
                self.wf(),
                self.source() == s,
                s == old(self).source(),
                st0 == old(self).state(),
                kept_on(s, st0, self.state()),
                args_at(s, st0) == args_rest(s, self.state(), vec_exprs_view(args)),
            decreases s.len() - self.at(),
        {
            let ghost acc = args@;
            proof {
                self.lemma_wf();
                lemma_lex_step(s, self.at());
            }
            self.next_token();
            self.next_token();
            if let Some(e) = self.parse_expr(Prec::Lowest) {
                args.push(e);
                proof {
                    lemma_exprs_view_push(acc, e);
                }
            }
            proof {
                self.lemma_wf();
            }
        }
        if !self.advance_if_peek(TokenType::RPAREN) {
            return Vec::new();
        }
        args
    }
}

} // verus!

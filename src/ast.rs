use crate::token::{Token, TokenType};
use vstd::prelude::*;

verus! {

/// An expression; each node owns its sub-expressions.
#[allow(inconsistent_fields)]
#[derive(Debug)]
pub enum Expr<'a> {
    Identifier { token: Token<'a>, value: &'a [u8] },
    IntLiteral { token: Token<'a>, value: i64 },
    BoolLiteral { token: Token<'a>, value: bool },
    FnLiteral { token: Token<'a>, parameters: Vec<Expr<'a>>, block: Box<Stmt<'a>> },
    Call { token: Token<'a>, function: Box<Expr<'a>>, arguments: Vec<Expr<'a>> },
    Prefix { token: Token<'a>, op: &'a [u8], expr: Box<Expr<'a>> },
    Infix { token: Token<'a>, left: Box<Expr<'a>>, op: &'a [u8], right: Box<Expr<'a>> },
    If {
        token: Token<'a>,
        condition: Box<Expr<'a>>,
        consequence: Box<Stmt<'a>>,
        alternative: Option<Box<Stmt<'a>>>,
    },
}

/// The ordered top-level statements of a parsed source.
pub struct Program<'a> {
    pub stmts: Vec<Stmt<'a>>,
}

/// A statement. A block shares the environment of the code around it.
#[derive(Debug)]
pub enum Stmt<'a> {
    Let { token: Token<'a>, name: Expr<'a>, value: Expr<'a> },
    Return { token: Token<'a>, value: Expr<'a> },
    Expr { expr: Expr<'a> },
    Block { token: Token<'a>, stmts: Vec<Stmt<'a>> },
}

/// Either kind of syntax node.
pub enum Node<'a> {
    Stmt(Stmt<'a>),
    Expr(Expr<'a>),
}

/// A token as plain values: its category and its lexeme.
pub type TokenView = (TokenType, Seq<u8>);

pub open spec fn token_view(t: Token) -> TokenView {
    (t.token_type, t.literal@)
}

/// An expression as plain values, lexemes as byte sequences.
#[allow(inconsistent_fields)]
pub enum ExprView {
    Identifier { token: TokenView, value: Seq<u8> },
    IntLiteral { token: TokenView, value: i64 },
    BoolLiteral { token: TokenView, value: bool },
    FnLiteral { token: TokenView, parameters: Seq<ExprView>, block: Box<StmtView> },
    Call { token: TokenView, function: Box<ExprView>, arguments: Seq<ExprView> },
    Prefix { token: TokenView, op: Seq<u8>, expr: Box<ExprView> },
    Infix { token: TokenView, left: Box<ExprView>, op: Seq<u8>, right: Box<ExprView> },
    If {
        token: TokenView,
        condition: Box<ExprView>,
        consequence: Box<StmtView>,
        alternative: Option<Box<StmtView>>,
    },
}

/// A statement as plain values.
pub enum StmtView {
    Let { token: TokenView, name: ExprView, value: ExprView },
    Return { token: TokenView, value: ExprView },
    Expr { expr: ExprView },
    Block { token: TokenView, stmts: Seq<StmtView> },
}

pub open spec fn expr_view(e: Expr) -> ExprView
    decreases e, 0int,
{
    match e {
        Expr::Identifier { token, value } => ExprView::Identifier {
            token: token_view(token),
            value: value@,
        },
        Expr::IntLiteral { token, value } => ExprView::IntLiteral { token: token_view(token), value },
        Expr::BoolLiteral { token, value } => ExprView::BoolLiteral {
            token: token_view(token),
            value,
        },
        Expr::FnLiteral { token, parameters, block } => ExprView::FnLiteral {
            token: token_view(token),
            parameters: exprs_view(parameters@, parameters@.len() as int),
            block: Box::new(stmt_view(*block)),
        },
        Expr::Call { token, function, arguments } => ExprView::Call {
            token: token_view(token),
            function: Box::new(expr_view(*function)),
            arguments: exprs_view(arguments@, arguments@.len() as int),
        },
        Expr::Prefix { token, op, expr } => ExprView::Prefix {
            token: token_view(token),
            op: op@,
            expr: Box::new(expr_view(*expr)),
        },
        Expr::Infix { token, left, op, right } => ExprView::Infix {
            token: token_view(token),
            left: Box::new(expr_view(*left)),
            op: op@,
            right: Box::new(expr_view(*right)),
        },
        Expr::If { token, condition, consequence, alternative } => ExprView::If {
            token: token_view(token),
            condition: Box::new(expr_view(*condition)),
            consequence: Box::new(stmt_view(*consequence)),
            alternative: match alternative {
                Some(a) => Some(Box::new(stmt_view(*a))),
                None => None,
            },
        },
    }
}

/// The views of the first `n` expressions of `xs`.
pub open spec fn exprs_view(xs: Seq<Expr>, n: int) -> Seq<ExprView>
    decreases xs, n,
{
    if n <= 0 || n > xs.len() {
        Seq::empty()
    } else {
        exprs_view(xs, n - 1).push(expr_view(xs[n - 1]))
    }
}

/// The views of the first `n` statements of `ss`.
pub open spec fn stmts_view(ss: Seq<Stmt>, n: int) -> Seq<StmtView>
    decreases ss, n,
{
    if n <= 0 || n > ss.len() {
        Seq::empty()
    } else {
        stmts_view(ss, n - 1).push(stmt_view(ss[n - 1]))
    }
}

pub open spec fn stmt_view(s: Stmt) -> StmtView
    decreases s, 0int,
{
    match s {
        Stmt::Let { token, name, value } => StmtView::Let {
            token: token_view(token),
            name: expr_view(name),
            value: expr_view(value),
        },
        Stmt::Return { token, value } => StmtView::Return {
            token: token_view(token),
            value: expr_view(value),
        },
        Stmt::Expr { expr } => StmtView::Expr { expr: expr_view(expr) },
        Stmt::Block { token, stmts } => StmtView::Block {
            token: token_view(token),
            stmts: stmts_view(stmts@, stmts@.len() as int),
        },
    }
}

/// The view of a whole vector of expressions.
pub open spec fn vec_exprs_view(v: Vec<Expr>) -> Seq<ExprView> {
    exprs_view(v@, v@.len() as int)
}

/// The view of a whole vector of statements.
pub open spec fn vec_stmts_view(v: Vec<Stmt>) -> Seq<StmtView> {
    stmts_view(v@, v@.len() as int)
}

/// The views of the expressions of `xs` depend only on those expressions.
pub proof fn lemma_exprs_view_prefix(a: Seq<Expr>, b: Seq<Expr>, n: int)
    requires
        0 <= n <= a.len(),
        n <= b.len(),
        a.subrange(0, n) == b.subrange(0, n),
    ensures
        exprs_view(a, n) == exprs_view(b, n),
    decreases n,
{
    if n > 0 {
        assert(a[n - 1] == a.subrange(0, n)[n - 1]);
        assert(b[n - 1] == b.subrange(0, n)[n - 1]);
        assert(a.subrange(0, n - 1) =~= a.subrange(0, n).subrange(0, n - 1));
        assert(b.subrange(0, n - 1) =~= b.subrange(0, n).subrange(0, n - 1));
        lemma_exprs_view_prefix(a, b, n - 1);
    }
}

/// Pushing an expression onto a vector pushes its view onto the views.
pub proof fn lemma_exprs_view_push(xs: Seq<Expr>, x: Expr)
    ensures
        exprs_view(xs.push(x), xs.len() + 1int) == exprs_view(xs, xs.len() as int).push(
            expr_view(x),
        ),
{
    assert(xs.push(x).subrange(0, xs.len() as int) =~= xs.subrange(0, xs.len() as int));
    lemma_exprs_view_prefix(xs.push(x), xs, xs.len() as int);
}

/// The views of the statements of `ss` depend only on those statements.
pub proof fn lemma_stmts_view_prefix(a: Seq<Stmt>, b: Seq<Stmt>, n: int)
    requires
        0 <= n <= a.len(),
        n <= b.len(),
        a.subrange(0, n) == b.subrange(0, n),
    ensures
        stmts_view(a, n) == stmts_view(b, n),
    decreases n,
{
    if n > 0 {
        assert(a[n - 1] == a.subrange(0, n)[n - 1]);
        assert(b[n - 1] == b.subrange(0, n)[n - 1]);
        assert(a.subrange(0, n - 1) =~= a.subrange(0, n).subrange(0, n - 1));
        assert(b.subrange(0, n - 1) =~= b.subrange(0, n).subrange(0, n - 1));
        lemma_stmts_view_prefix(a, b, n - 1);
    }
}

/// Pushing a statement onto a vector pushes its view onto the views.
pub proof fn lemma_stmts_view_push(ss: Seq<Stmt>, s: Stmt)
    ensures
        stmts_view(ss.push(s), ss.len() + 1int) == stmts_view(ss, ss.len() as int).push(
            stmt_view(s),
        ),
{
    assert(ss.push(s).subrange(0, ss.len() as int) =~= ss.subrange(0, ss.len() as int));
    lemma_stmts_view_prefix(ss.push(s), ss, ss.len() as int);
}

/// Source bytes read as characters, one character per byte.
pub open spec fn chars_of(b: Seq<u8>) -> Seq<char> {
    b.map_values(|x: u8| x as char)
}

/// The canonical text of an expression: operators fully parenthesized, so
/// that the grouping the parser chose is explicit.
pub open spec fn expr_text(e: Expr) -> Seq<char>
    decreases e, 0int,
{
    match e {
        Expr::Identifier { token, .. } => chars_of(token.literal@),
        Expr::IntLiteral { token, .. } => chars_of(token.literal@),
        Expr::BoolLiteral { token, .. } => chars_of(token.literal@),
        Expr::FnLiteral { token, parameters, block } => chars_of(token.literal@) + seq![' ', '(']
            + joined_text(parameters@, parameters@.len() as int) + seq![')', ' '] + stmt_text(
            *block,
        ),
        Expr::Call { function, arguments, .. } => expr_text(*function) + seq!['('] + joined_text(
            arguments@,
            arguments@.len() as int,
        ) + seq![')'],
        Expr::If { condition, consequence, alternative, .. } => seq!['i', 'f', ' '] + expr_text(
            *condition,
        ) + seq![' '] + stmt_text(*consequence) + match alternative {
            Some(alt) => seq![' ', 'e', 'l', 's', 'e', ' '] + stmt_text(*alt),
            None => Seq::<char>::empty(),
        } + seq![')'],
        Expr::Prefix { op, expr, .. } => seq!['('] + chars_of(op@) + expr_text(*expr) + seq![')'],
        Expr::Infix { left, op, right, .. } => seq!['('] + expr_text(*left) + seq![' '] + chars_of(
            op@,
        ) + seq![' '] + expr_text(*right) + seq![')'],
    }
}

/// The texts of the first `n` expressions of `xs`, separated by `", "`.
pub open spec fn joined_text(xs: Seq<Expr>, n: int) -> Seq<char>
    decreases xs, n,
{
    if n <= 0 || n > xs.len() {
        Seq::empty()
    } else if n == 1 {
        expr_text(xs[0])
    } else {
        joined_text(xs, n - 1) + seq![',', ' '] + expr_text(xs[n - 1])
    }
}

/// The texts of the first `n` statements of `ss`, one after the other.
pub open spec fn concat_text(ss: Seq<Stmt>, n: int) -> Seq<char>
    decreases ss, n,
{
    if n <= 0 || n > ss.len() {
        Seq::empty()
    } else {
        concat_text(ss, n - 1) + stmt_text(ss[n - 1])
    }
}

/// The canonical text of a statement.
pub open spec fn stmt_text(s: Stmt) -> Seq<char>
    decreases s, 0int,
{
    match s {
        Stmt::Expr { expr } => expr_text(expr),
        Stmt::Block { stmts, .. } => concat_text(stmts@, stmts@.len() as int),
        Stmt::Return { token, value } => chars_of(token.literal@) + seq![' '] + expr_text(value)
            + seq![';'],
        Stmt::Let { token, name, value } => chars_of(token.literal@) + seq![' '] + expr_text(name)
            + seq![' ', '=', ' '] + expr_text(value) + seq![';'],
    }
}

/// Relies on `String::push`: the character is appended at the end.
#[verifier::external_body]
fn push_char(s: &mut String, c: char)
    ensures
        final(s)@ == old(s)@.push(c),
{
    s.push(c)
}

/// Appends each byte of `b` as one character.
fn push_bytes(out: &mut String, b: &[u8])
    ensures
        final(out)@ == old(out)@ + chars_of(b@),
{
    let mut i: usize = 0;
    while i < b.len()
        invariant
            0 <= i <= b@.len(),
            out@ == old(out)@ + chars_of(b@.subrange(0, i as int)),
        decreases b@.len() - i,
    {
        push_char(out, b[i] as char);
        proof {
            assert(chars_of(b@.subrange(0, i + 1)) =~= chars_of(b@.subrange(0, i as int)).push(
                b@[i as int] as char,
            ));
        }
        i = i + 1;
    }
    proof {
        assert(b@.subrange(0, b@.len() as int) =~= b@);
    }
}

fn push_chars(out: &mut String, cs: &[char])
    ensures
        final(out)@ == old(out)@ + cs@,
{
    let mut i: usize = 0;
    while i < cs.len()
        invariant
            0 <= i <= cs@.len(),
            out@ == old(out)@ + cs@.subrange(0, i as int),
        decreases cs@.len() - i,
    {
        push_char(out, cs[i]);
        proof {
            assert(cs@.subrange(0, i + 1) =~= cs@.subrange(0, i as int).push(cs@[i as int]));
        }
        i = i + 1;
    }
    proof {
        assert(cs@.subrange(0, cs@.len() as int) =~= cs@);
    }
}

impl<'a> Expr<'a> {
    fn write_to(&self, out: &mut String)
        ensures
            final(out)@ == old(out)@ + expr_text(*self),
        decreases *self, 0int,
    {
        match self {
            Expr::Identifier { token, .. } => push_bytes(out, token.literal),
            Expr::IntLiteral { token, .. } => push_bytes(out, token.literal),
            Expr::BoolLiteral { token, .. } => push_bytes(out, token.literal),
            Expr::FnLiteral { token, parameters, block } => {
                push_bytes(out, token.literal);
                push_chars(out, &[' ', '(']);
                write_joined(parameters, out);
                push_chars(out, &[')', ' ']);
                block.write_to(out);
            },
            Expr::Call { function, arguments, .. } => {
                function.write_to(out);
                push_chars(out, &['(']);
                write_joined(arguments, out);
                push_chars(out, &[')']);
            },
            Expr::If { condition, consequence, alternative, .. } => {
                push_chars(out, &['i', 'f', ' ']);
                condition.write_to(out);
                push_chars(out, &[' ']);
                consequence.write_to(out);
                match alternative {
                    Some(alt) => {
                        push_chars(out, &[' ', 'e', 'l', 's', 'e', ' ']);
                        alt.write_to(out);
                    },
                    None => {},
                }
                push_chars(out, &[')']);
            },
            Expr::Prefix { op, expr, .. } => {
                push_chars(out, &['(']);
                push_bytes(out, op);
                expr.write_to(out);
                push_chars(out, &[')']);
            },
            Expr::Infix { left, op, right, .. } => {
                push_chars(out, &['(']);
                left.write_to(out);
                push_chars(out, &[' ']);
                push_bytes(out, op);
                push_chars(out, &[' ']);
                right.write_to(out);
                push_chars(out, &[')']);
            },
        }
    }

    /// The canonical, fully parenthesized text of the expression.
    pub fn to_string(&self) -> (r: String)
        ensures
            r@ == expr_text(*self),
    {
        let mut out = String::new();
        self.write_to(&mut out);
        out
    }
}

fn write_joined<'a>(xs: &Vec<Expr<'a>>, out: &mut String)
    ensures
        final(out)@ == old(out)@ + joined_text(xs@, xs@.len() as int),
    decreases xs@, xs@.len() + 1,
{
    let mut i: usize = 0;
    while i < xs.len()
        invariant
            0 <= i <= xs@.len(),
            out@ == old(out)@ + joined_text(xs@, i as int),
        decreases xs@.len() - i,
    {
        if i > 0 {
            push_chars(out, &[',', ' ']);
        }
        xs[i].write_to(out);
        i = i + 1;
    }
}

fn write_all<'a>(ss: &Vec<Stmt<'a>>, out: &mut String)
    ensures
        final(out)@ == old(out)@ + concat_text(ss@, ss@.len() as int),
    decreases ss@, ss@.len() + 1,
{
    let mut i: usize = 0;
    while i < ss.len()
        invariant
            0 <= i <= ss@.len(),
            out@ == old(out)@ + concat_text(ss@, i as int),
        decreases ss@.len() - i,
    {
        ss[i].write_to(out);
        i = i + 1;
    }
}

impl<'a> Stmt<'a> {
    fn write_to(&self, out: &mut String)
        ensures
            final(out)@ == old(out)@ + stmt_text(*self),
        decreases *self, 0int,
    {
        match self {
            Stmt::Expr { expr } => expr.write_to(out),
            Stmt::Block { stmts, .. } => write_all(stmts, out),
            Stmt::Return { token, value } => {
                push_bytes(out, token.literal);
                push_chars(out, &[' ']);
                value.write_to(out);
                push_chars(out, &[';']);
            },
            Stmt::Let { token, name, value } => {
                push_bytes(out, token.literal);
                push_chars(out, &[' ']);
                name.write_to(out);
                push_chars(out, &[' ', '=', ' ']);
                value.write_to(out);
                push_chars(out, &[';']);
            },
        }
    }

    /// The canonical text of the statement.
    pub fn to_string(&self) -> (r: String)
        ensures
            r@ == stmt_text(*self),
    {
        let mut out = String::new();
        self.write_to(&mut out);
        out
    }
}

impl<'a> Node<'a> {
    /// The canonical text of the node it holds.
    pub fn to_string(&self) -> (r: String)
        ensures
            r@ == match self {
                Node::Stmt(s) => stmt_text(*s),
                Node::Expr(e) => expr_text(*e),
            },
    {
        match self {
            Node::Stmt(s) => s.to_string(),
            Node::Expr(e) => e.to_string(),
        }
    }
}

} // verus!

use crate::ast::{Expr, Program, Stmt};
use crate::env::Env;
use crate::object::Object;
use vstd::prelude::*;

verus! {

/// What evaluating a piece of code produces: a value, or the message of the
/// first semantic error.
pub type Outcome = Result<Object, &'static str>;

/// Bindings from identifier bytes to values.
pub type Bindings = Map<Seq<u8>, Object>;

/// An outcome that ends the statement sequence it occurs in: an error or a
/// return signal.
pub open spec fn stops(r: Outcome) -> bool {
    match r {
        Err(_) => true,
        Ok(Object::ReturnValue(_)) => true,
        _ => false,
    }
}

/// Whether `v` fits in an `i64`.
pub open spec fn in_i64(v: int) -> bool {
    i64::MIN <= v <= i64::MAX
}

/// Integer division rounding toward zero.
pub open spec fn trunc_div(a: int, b: int) -> int {
    if a >= 0 && b > 0 {
        a / b
    } else if a < 0 && b < 0 {
        (-a) / (-b)
    } else if a < 0 && b > 0 {
        -((-a) / b)
    } else if a >= 0 && b < 0 {
        -(a / (-b))
    } else {
        0
    }
}

/// An integer result, or an overflow error where it does not fit in an `i64`.
pub open spec fn integer_result(v: int) -> Outcome {
    if in_i64(v) {
        Ok(Object::Integer(v as i64))
    } else {
        Err("integer overflow")
    }
}

/// The value of a prefix operator `op` applied to `right`.
pub open spec fn prefix_value(op: Seq<u8>, right: Object) -> Outcome {
    if op == seq![33u8] {
        // "!"
        match right {
            Object::Bool(b) => Ok(Object::Bool(!b)),
            _ => Err("operator '!' only applies to boolean types"),
        }
    } else if op == seq![45u8] {
        // "-"
        match right {
            Object::Integer(v) => integer_result(-(v as int)),
            _ => Err("operator '-' only applies to numbers"),
        }
    } else {
        Err("operator not supported")
    }
}

/// The value of an infix operator `op` applied to two evaluated operands.
/// Integers support `+ - * /` and `< > == !=`, booleans only `== !=`;
/// any other pairing of kinds is a type error.
pub open spec fn infix_value(op: Seq<u8>, left: Object, right: Object) -> Outcome {
    match (left, right) {
        (Object::Integer(a), Object::Integer(b)) => {
            let (a, b) = (a as int, b as int);
            if op == seq![42u8] {
                integer_result(a * b)
            } else if op == seq![45u8] {
                integer_result(a - b)
            } else if op == seq![43u8] {
                integer_result(a + b)
            } else if op == seq![47u8] {
                if b == 0 {
                    Err("division by zero")
                } else {
                    integer_result(trunc_div(a, b))
                }
            } else if op == seq![60u8] {
                Ok(Object::Bool(a < b))
            } else if op == seq![62u8] {
                Ok(Object::Bool(a > b))
            } else if op == seq![61u8, 61u8] {
                Ok(Object::Bool(a == b))
            } else if op == seq![33u8, 61u8] {
                Ok(Object::Bool(a != b))
            } else {
                Err("operator not supported for given types")
            }
        },
        (Object::Bool(a), Object::Bool(b)) => {
            if op == seq![61u8, 61u8] {
                Ok(Object::Bool(a == b))
            } else if op == seq![33u8, 61u8] {
                Ok(Object::Bool(a != b))
            } else {
                Err("operator not supported for given types")
            }
        },
        _ => Err("operand can only be applied to numbers"),
    }
}

/// Evaluating an expression: its outcome and the bindings afterwards (a
/// conditional's branch may bind names, since blocks share the environment).
pub open spec fn expr_meaning(e: Expr, env: Bindings) -> (Outcome, Bindings)
    decreases e, 0int,
{
    match e {
        Expr::Identifier { value, .. } => if env.contains_key(value@) {
            (Ok(env[value@]), env)
        } else {
            (Err("variable not found"), env)
        },
        Expr::IntLiteral { value, .. } => (Ok(Object::Integer(value)), env),
        Expr::BoolLiteral { value, .. } => (Ok(Object::Bool(value)), env),
        Expr::Prefix { op, expr, .. } => {
            let (r, env1) = expr_meaning(*expr, env);
            match r {
                Ok(v) => (prefix_value(op@, v), env1),
                Err(m) => (Err(m), env1),
            }
        },
        Expr::Infix { left, op, right, .. } => {
            let (l, env1) = expr_meaning(*left, env);
            match l {
                Err(m) => (Err(m), env1),
                Ok(lv) => {
                    let (r, env2) = expr_meaning(*right, env1);
                    match r {
                        Err(m) => (Err(m), env2),
                        Ok(rv) => (infix_value(op@, lv, rv), env2),
                    }
                },
            }
        },
        Expr::If { condition, consequence, alternative, .. } => {
            let (c, env1) = expr_meaning(*condition, env);
            match c {
                Err(m) => (Err(m), env1),
                Ok(Object::Bool(true)) => stmt_meaning(*consequence, env1),
                Ok(Object::Bool(false)) => match alternative {
                    Some(alt) => stmt_meaning(*alt, env1),
                    None => (Ok(Object::Null), env1),
                },
                Ok(_) => (Err("conditional expression isn't a boolean"), env1),
            }
        },
        _ => (Err("not supported expr type"), env),
    }
}

/// Evaluating a statement: its outcome and the bindings afterwards.
pub open spec fn stmt_meaning(s: Stmt, env: Bindings) -> (Outcome, Bindings)
    decreases s, 0int,
{
    match s {
        Stmt::Expr { expr } => expr_meaning(expr, env),
        Stmt::Block { stmts, .. } => seq_meaning(stmts@, 0, env, Ok(Object::Null)),
        Stmt::Return { value, .. } => {
            let (r, env1) = expr_meaning(value, env);
            match r {
                Ok(v) => (Ok(Object::ReturnValue(Box::new(v))), env1),
                Err(m) => (Err(m), env1),
            }
        },
        Stmt::Let { name, value, .. } => {
            let (r, env1) = expr_meaning(value, env);
            match r {
                Ok(v) => (
                    Ok(Object::Null),
                    match name {
                        Expr::Identifier { value: n, .. } => env1.insert(n@, v),
                        _ => env1,
                    },
                ),
                Err(m) => (Err(m), env1),
            }
        },
    }
}

/// Evaluating the statements of `ss` from index `i` on, in order, after
/// statements whose last outcome was `prev`. The first error or return
/// signal ends the sequence; otherwise the outcome is that of the last
/// statement.
pub open spec fn seq_meaning(ss: Seq<Stmt>, i: int, env: Bindings, prev: Outcome) -> (
    Outcome,
    Bindings,
)
    decreases ss, ss.len() - i,
{
    if i < 0 || i >= ss.len() {
        (prev, env)
    } else {
        let (r, env1) = stmt_meaning(ss[i], env);
        if stops(r) {
            (r, env1)
        } else {
            seq_meaning(ss, i + 1, env1, r)
        }
    }
}

/// A value with every return signal around it removed.
pub open spec fn strip_return(o: Object) -> Object
    decreases o,
{
    match o {
        Object::ReturnValue(inner) => strip_return(*inner),
        _ => o,
    }
}

/// Evaluating a whole program: its statements in order, with a return
/// signal unwrapped into the value it carries.
pub open spec fn program_meaning(ss: Seq<Stmt>, env: Bindings) -> (Outcome, Bindings) {
    let (r, env1) = seq_meaning(ss, 0, env, Ok(Object::Null));
    match r {
        Ok(o) => (Ok(strip_return(o)), env1),
        Err(m) => (Err(m), env1),
    }
}

/// Runs the statements of `prog` in order against `env`. The outcome is that
/// of the last statement, or the value of the first `return`, or the first
/// error; it is never a return signal.
pub fn eval_program<'a>(prog: Program<'a>, env: &mut Env<'a>) -> (r: Result<Object, &'a str>)
    requires
        old(env).wf(),
    ensures
        final(env).wf(),
        (r, final(env).view()) == program_meaning(prog.stmts@, old(env).view()),
        r matches Ok(v) ==> !(v is ReturnValue),
{
    let mut result: Outcome = Ok(Object::Null);
    let mut i: usize = 0;
    while i < prog.stmts.len()
        invariant
            env.wf(),
            0 <= i <= prog.stmts@.len(),
            !stops(result),
            seq_meaning(prog.stmts@, 0, old(env).view(), Ok(Object::Null)) == seq_meaning(
                prog.stmts@,
                i as int,
                env.view(),
                result,
            ),
        decreases prog.stmts@.len() - i,
    {
        result = eval_stmt(&prog.stmts[i], env);
        match result {
            Ok(Object::ReturnValue(value)) => {
                proof {
                    lemma_strip_not_return(*value);
                }
                return Ok(strip_return_exec(*value));
            },
            Err(m) => {
                return Err(m);
            },
            _ => {},
        }
        i = i + 1;
    }
    match result {
        Ok(o) => {
            proof {
                lemma_strip_not_return(o);
            }
            Ok(strip_return_exec(o))
        },
        Err(m) => Err(m),
    }
}

proof fn lemma_strip_not_return(o: Object)
    ensures
        !(strip_return(o) is ReturnValue),
    decreases o,
{
    if let Object::ReturnValue(inner) = o {
        lemma_strip_not_return(*inner);
    }
}

fn strip_return_exec(o: Object) -> (r: Object)
    ensures
        r == strip_return(o),
    decreases o,
{
    match o {
        Object::ReturnValue(inner) => strip_return_exec(*inner),
        _ => o,
    }
}

fn eval_block<'a>(stmts: &Vec<Stmt<'a>>, env: &mut Env<'a>) -> (r: Outcome)
    requires
        old(env).wf(),
    ensures
        final(env).wf(),
        (r, final(env).view()) == seq_meaning(stmts@, 0, old(env).view(), Ok(Object::Null)),
    decreases stmts@, stmts@.len() + 1,
{
    let mut result: Outcome = Ok(Object::Null);
    let mut i: usize = 0;
    while i < stmts.len()
        invariant
            env.wf(),
            0 <= i <= stmts@.len(),
            !stops(result),
            seq_meaning(stmts@, 0, old(env).view(), Ok(Object::Null)) == seq_meaning(
                stmts@,
                i as int,
                env.view(),
                result,
            ),
        decreases stmts@.len() - i,
    {
        result = eval_stmt(&stmts[i], env);
        if let Ok(Object::ReturnValue(_)) = result {
            return result;
        }
        if let Err(_) = result {
            return result;
        }
        i = i + 1;
    }
    result
}

fn eval_stmt<'a>(stmt: &Stmt<'a>, env: &mut Env<'a>) -> (r: Outcome)
    requires
        old(env).wf(),
    ensures
        final(env).wf(),
        (r, final(env).view()) == stmt_meaning(*stmt, old(env).view()),
    decreases *stmt, 0int,
{
    match stmt {
        Stmt::Expr { expr } => eval(expr, env),
        Stmt::Block { stmts, .. } => eval_block(stmts, env),
        Stmt::Return { value, .. } => match eval(value, env) {
            Ok(v) => Ok(Object::ReturnValue(Box::new(v))),
            Err(m) => Err(m),
        },
        Stmt::Let { name, value, .. } => {
            let result = eval(value, env);
            match result {
                Ok(value) => {
                    if let Expr::Identifier { value: name, .. } = name {
                        env.set(name, value);
                    }
                    Ok(Object::Null)
                },
                _ => result,
            }
        },
    }
}

fn eval<'a>(expr: &Expr<'a>, env: &mut Env<'a>) -> (r: Outcome)
    requires
        old(env).wf(),
    ensures
        final(env).wf(),
        (r, final(env).view()) == expr_meaning(*expr, old(env).view()),
    decreases *expr, 2int,
{
    match expr {
        Expr::Identifier { value, .. } => eval_identifier(value, env),
        Expr::IntLiteral { value, .. } => Ok(Object::Integer(*value)),
        Expr::BoolLiteral { value, .. } => Ok(Object::Bool(*value)),
        Expr::Prefix { op, expr, .. } => {
            let right = eval(expr, env)?;
            eval_prefix_expr(op, right)
        },
        Expr::Infix { left, op, right, .. } => {
            let l = eval(left, env)?;
            let r = eval(right, env)?;
            eval_infix_expr(op, l, r)
        },
        Expr::If { condition, consequence, alternative, .. } => eval_conditional_expr(
            condition,
            consequence,
            alternative,
            env,
            Ghost(*expr),
        ),
        _ => Err("not supported expr type"),
    }
}

fn eval_identifier<'a>(ident: &[u8], env: &mut Env<'a>) -> (r: Outcome)
    requires
        old(env).wf(),
    ensures
        *final(env) == *old(env),
        r == (if old(env).view().contains_key(ident@) {
            Ok(old(env).view()[ident@])
        } else {
            Err("variable not found")
        }),
{
    match env.get(ident) {
        Some(value) => Ok(value),
        None => Err("variable not found"),
    }
}

fn eval_conditional_expr<'a>(
    condition: &Expr<'a>,
    consequence: &Stmt<'a>,
    alternative: &Option<Box<Stmt<'a>>>,
    env: &mut Env<'a>,
    Ghost(whole): Ghost<Expr<'a>>,
) -> (r: Outcome)
    requires
        old(env).wf(),
        whole matches Expr::If { condition: c, consequence: k, alternative: a, .. } && *c
            == *condition && *k == *consequence && a == *alternative,
    ensures
        final(env).wf(),
        (r, final(env).view()) == {
            let (c, env1) = expr_meaning(*condition, old(env).view());
            match c {
                Err(m) => (Err(m), env1),
                Ok(Object::Bool(true)) => stmt_meaning(*consequence, env1),
                Ok(Object::Bool(false)) => match *alternative {
                    Some(alt) => stmt_meaning(*alt, env1),
                    None => (Ok(Object::Null), env1),
                },
                Ok(_) => (Err("conditional expression isn't a boolean"), env1),
            }
        },
    decreases whole, 1int,
{
    let cond = eval(condition, env)?;
    match cond {
        Object::Bool(value) => {
            if value {
                eval_stmt(consequence, env)
            } else if alternative.is_some() {
                match alternative {
                    Some(alt) => eval_stmt(alt, env),
                    None => Ok(Object::Null),
                }
            } else {
                Ok(Object::Null)
            }
        },
        _ => Err("conditional expression isn't a boolean"),
    }
}

/// Whether `op` is the one byte `c`.
fn is_op1(op: &[u8], c: u8) -> (r: bool)
    ensures
        r == (op@ == seq![c]),
{
    if op.len() == 1 && op[0] == c {
        assert(op@ =~= seq![c]);
        true
    } else {
        false
    }
}

/// Whether `op` is the two bytes `c`, `d`.
fn is_op2(op: &[u8], c: u8, d: u8) -> (r: bool)
    ensures
        r == (op@ == seq![c, d]),
{
    if op.len() == 2 && op[0] == c && op[1] == d {
        assert(op@ =~= seq![c, d]);
        true
    } else {
        false
    }
}

fn checked_result(v: Option<i64>) -> (r: Outcome)
    ensures
        r == match v {
            Some(x) => Ok(Object::Integer(x)),
            None => Err::<Object, &'static str>("integer overflow"),
        },
{
    match v {
        Some(x) => Ok(Object::Integer(x)),
        None => Err("integer overflow"),
    }
}

fn eval_prefix_expr(op: &[u8], right: Object) -> (r: Outcome)
    ensures
        r == prefix_value(op@, right),
{
    if is_op1(op, 33) {
        match right {
            Object::Bool(value) => Ok(Object::Bool(!value)),
            _ => Err("operator '!' only applies to boolean types"),
        }
    } else if is_op1(op, 45) {
        match right {
            Object::Integer(value) => checked_result(0i64.checked_sub(value)),
            _ => Err("operator '-' only applies to numbers"),
        }
    } else {
        Err("operator not supported")
    }
}

fn eval_infix_expr(op: &[u8], left: Object, right: Object) -> (r: Outcome)
    ensures
        r == infix_value(op@, left, right),
{
    match (left, right) {
        (Object::Integer(left), Object::Integer(right)) => {
            if is_op1(op, 42) {
                checked_result(left.checked_mul(right))
            } else if is_op1(op, 45) {
                checked_result(left.checked_sub(right))
            } else if is_op1(op, 43) {
                checked_result(left.checked_add(right))
            } else if is_op1(op, 47) {
                if right == 0 {
                    Err("division by zero")
                } else {
                    checked_result(left.checked_div(right))
                }
            } else if is_op1(op, 60) {
                Ok(Object::Bool(left < right))
            } else if is_op1(op, 62) {
                Ok(Object::Bool(left > right))
            } else if is_op2(op, 61, 61) {
                Ok(Object::Bool(left == right))
            } else if is_op2(op, 33, 61) {
                Ok(Object::Bool(left != right))
            } else {
                Err("operator not supported for given types")
            }
        },
        (Object::Bool(left), Object::Bool(right)) => {
            if is_op2(op, 61, 61) {
                Ok(Object::Bool(left == right))
            } else if is_op2(op, 33, 61) {
                Ok(Object::Bool(left != right))
            } else {
                Err("operator not supported for given types")
            }
        },
        _ => Err("operand can only be applied to numbers"),
    }
}

} // verus!

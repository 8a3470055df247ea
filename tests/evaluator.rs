use monkey::env::Env;
use monkey::evaluator::eval_program;
use monkey::lexer::Lexer;
use monkey::object::Object;
use monkey::parser::Parser;

fn eval_prog<'a>(input: &'a str) -> Result<Object, &'a str> {
    let l = Lexer::new(input.as_bytes());
    let mut parser = Parser::new(l);
    let prog = parser.parse();
    let mut env = Env::new();

    match prog {
        Ok(p) => eval_program(p, &mut env),
        Err(_) => panic!("failed to evaluate program"),
    }
}

fn assert_int_obj(obj: &Object, evalue: i64) {
    if let Object::Integer(value) = obj {
        assert_eq!(*value, evalue)
    } else {
        panic!("not an integer object")
    }
}

fn assert_bool_obj(obj: &Object, evalue: bool) {
    if let Object::Bool(value) = obj {
        assert_eq!(*value, evalue)
    } else {
        panic!("not an boolean object")
    }
}

#[test]
fn evaluator_test_int_expr() {
    let inputs = [
        ("5", 5),
        ("10", 10),
        ("-5", -5),
        ("-10", -10),
        ("5 + 5 + 5 + 5 - 10", 10),
        ("2 * 2 * 2 * 2 * 2", 32),
        ("-50 + 100 + -50", 0),
        ("5 * 2 + 10", 20),
        ("5 + 2 * 10", 25),
        ("20 + 2 * -10", 0),
        ("50 / 2 * 2 + 10", 60),
        ("2 * (5 + 10)", 30),
        ("3 * 3 * 3 + 10", 37),
        ("3 * (3 * 3) + 10", 37),
        ("(5 + 10 * 2 + 15 / 3) * 2 + -10", 50),
    ];
    for (i, expected) in inputs {
        let obj = eval_prog(i).unwrap();
        assert_int_obj(&obj, expected);
    }
}

#[test]
fn test_bool_expr() {
    let inputs = [
        ("true", true),
        ("false", false),
        ("1 < 2", true),
        ("1 > 2", false),
        ("1 < 1", false),
        ("1 > 1", false),
        ("1 == 1", true),
        ("1 != 1", false),
        ("1 == 2", false),
        ("1 != 2", true),
        ("true == true", true),
        ("false == false", true),
        ("true == false", false),
        ("true != false", true),
        ("false != true", true),
        ("(1 < 2) == true", true),
        ("(1 < 2) == false", false),
        ("(1 > 2) == true", false),
        ("(1 > 2) == false", true),
    ];
    for (i, expected) in inputs {
        let obj = eval_prog(i).unwrap();
        assert_bool_obj(&obj, expected);
    }
}

#[test]
fn test_bang_op() {
    let inputs = [
        ("!true", false),
        ("!false", true),
        ("!!true", true),
        ("!!false", false),
    ];
    for (i, expected) in inputs {
        let obj = eval_prog(i).unwrap();
        assert_bool_obj(&obj, expected);
    }
}

#[test]
fn test_bang_with_non_boolean_types() {
    let neg_input = ["!5", "!!5"];
    for i in neg_input {
        assert!(eval_prog(&i).is_err());
    }
}

#[test]
fn test_conditional_expr() {
    let truthy_inputs = [
        ("if (true) { 10 }", 10),
        ("if (1 < 2) { 10 }", 10),
        ("if (1 > 2) { 10 } else { 20 }", 20),
        ("if (1 < 2) { 10 } else { 20 }", 10),
    ];
    let falsy_inputs = ["if (false) { 10 }", "if (1 > 2) { 10 }"];

    for (input, evalue) in truthy_inputs {
        let value = eval_prog(input).unwrap();
        println!("{} {}", input, value.to_string());
        assert_int_obj(&value, evalue);
    }

    for input in falsy_inputs {
        let value = eval_prog(input);
        assert!(matches!(value.unwrap(), Object::Null));
    }
}

#[test]
fn test_return_stmt() {
    let inputs = [
        ("return 10;", 10),
        ("return 10; 9;", 10),
        ("return 2 * 5; 9;", 10),
        ("9; return 2 * 5; 9;", 10),
        ("if (10 > 1) { if (10 > 1) { return 10; } return 1; }", 10),
    ];
    for (i, expected) in inputs {
        println!("{}", i);
        let obj = eval_prog(i).unwrap();
        assert_int_obj(&obj, expected);
    }
}

#[test]
fn evaluator_test_errors() {
    let inputs = [
        "5 + true;",
        "5 + true; 5;",
        "-true",
        "true + false;",
        "5; true + false; 5",
        "if (10 > 1) { true + false; }",
        "
if (10 > 1) {
if (10 > 1) {
return true + false;
}
return 1;
}
",
        "foobar",
    ];

    for i in inputs {
        let res = eval_prog(i);
        assert!(res.is_err());
    }
}

#[test]
fn evaluator_test_let_stmts() {
    let inputs = [
        ("let a = 5; a;", 5),
        ("let a = 5 * 5; a;", 25),
        ("let a = 5; let b = a; b;", 5),
        ("let a = 5; let b = a; let c = a + b + 5; c;", 15),
    ];

    for (i, evalue) in inputs {
        let obj = eval_prog(i).unwrap();
        assert_int_obj(&obj, evalue);
    }
}

#[test]
fn error_kinds_have_their_messages() {
    assert_eq!(eval_prog("foobar").err(), Some("variable not found"));
    assert_eq!(eval_prog("5 + true").err(), Some("operand can only be applied to numbers"));
    assert_eq!(eval_prog("true + false").err(), Some("operator not supported for given types"));
    assert_eq!(eval_prog("true < false").err(), Some("operator not supported for given types"));
    assert_eq!(eval_prog("!5").err(), Some("operator '!' only applies to boolean types"));
    assert_eq!(eval_prog("-true").err(), Some("operator '-' only applies to numbers"));
    assert_eq!(eval_prog("if (1) { 2 }").err(), Some("conditional expression isn't a boolean"));
    assert_eq!(eval_prog("fn(x) { x }").err(), Some("not supported expr type"));
    assert_eq!(eval_prog("f(1)").err(), Some("not supported expr type"));
}

#[test]
fn division_truncates_and_zero_divisor_is_an_error() {
    assert_int_obj(&eval_prog("7 / 2").unwrap(), 3);
    assert_int_obj(&eval_prog("-7 / 2").unwrap(), -3);
    assert_int_obj(&eval_prog("7 / -2").unwrap(), -3);
    assert_int_obj(&eval_prog("-7 / -2").unwrap(), 3);
    assert_eq!(eval_prog("1 / 0").err(), Some("division by zero"));
    assert_eq!(eval_prog("1 / (2 - 2)").err(), Some("division by zero"));
}

#[test]
fn overflow_is_an_error() {
    assert_int_obj(&eval_prog("9223372036854775807").unwrap(), i64::MAX);
    assert_int_obj(&eval_prog("-9223372036854775807 - 1").unwrap(), i64::MIN);
    assert_eq!(eval_prog("9223372036854775807 + 1").err(), Some("integer overflow"));
    assert_eq!(eval_prog("-9223372036854775807 - 2").err(), Some("integer overflow"));
    assert_eq!(eval_prog("4611686018427387904 * 2").err(), Some("integer overflow"));
    assert_eq!(eval_prog("-(-9223372036854775807 - 1)").err(), Some("integer overflow"));
    assert_eq!(eval_prog("(-9223372036854775807 - 1) / -1").err(), Some("integer overflow"));
}

#[test]
fn comparisons_of_one_kind_are_total() {
    assert_bool_obj(&eval_prog("3 < 3").unwrap(), false);
    assert_bool_obj(&eval_prog("3 > 2").unwrap(), true);
    assert_bool_obj(&eval_prog("false != false").unwrap(), false);
    assert!(eval_prog("true == 1").is_err());
    assert!(eval_prog("1 != false").is_err());
}

#[test]
fn untaken_branch_is_not_evaluated() {
    assert_int_obj(&eval_prog("if (true) { 1 } else { nope }").unwrap(), 1);
    assert_int_obj(&eval_prog("if (false) { nope } else { 2 }").unwrap(), 2);
    assert!(matches!(eval_prog("if (false) { nope }").unwrap(), Object::Null));
}

#[test]
fn statements_after_return_or_error_do_not_run() {
    assert_int_obj(&eval_prog("return 1; nope").unwrap(), 1);
    assert_int_obj(&eval_prog("if (true) { return 3; nope; } nope").unwrap(), 3);
    assert_eq!(eval_prog("nope; 1 / 0").err(), Some("variable not found"));
}

#[test]
fn block_bindings_are_shared_and_rebinding_replaces() {
    assert_int_obj(&eval_prog("if (true) { let a = 4; } a").unwrap(), 4);
    assert_int_obj(&eval_prog("let a = 1; let a = a + 1; a").unwrap(), 2);
    assert!(matches!(eval_prog("let a = 1;").unwrap(), Object::Null));
    assert!(matches!(eval_prog("").unwrap(), Object::Null));
}

#[test]
fn nested_return_is_fully_unwrapped() {
    assert_int_obj(&eval_prog("return if (true) { return 5; };").unwrap(), 5);
}

#[test]
fn env_persists_across_programs() {
    let src1 = "let x = 40;";
    let src2 = "x + 2";
    let mut env = Env::new();
    let p1 = Parser::new(Lexer::new(src1.as_bytes())).parse().ok().unwrap();
    assert!(matches!(eval_program(p1, &mut env).unwrap(), Object::Null));
    let p2 = Parser::new(Lexer::new(src2.as_bytes())).parse().ok().unwrap();
    assert_int_obj(&eval_program(p2, &mut env).unwrap(), 42);
}

#[test]
fn env_get_and_set() {
    let mut env = Env::new();
    assert!(env.get(b"a").is_none());
    env.set(b"a", Object::Integer(1));
    env.set(b"b", Object::Bool(true));
    env.set(b"a", Object::Integer(7));
    assert!(matches!(env.get(b"a"), Some(Object::Integer(7))));
    assert!(matches!(env.get(b"b"), Some(Object::Bool(true))));
    assert!(env.get(b"c").is_none());
}

#[test]
fn object_text() {
    assert_eq!(Object::Integer(-45).to_string(), "-45");
    assert_eq!(Object::Integer(0).to_string(), "0");
    assert_eq!(Object::Integer(i64::MIN).to_string(), "-9223372036854775808");
    assert_eq!(Object::Bool(true).to_string(), "true");
    assert_eq!(Object::Bool(false).to_string(), "false");
    assert_eq!(Object::Null.to_string(), "nil");
    assert_eq!(Object::ReturnValue(Box::new(Object::Integer(12))).to_string(), "12");
    let copy = Object::ReturnValue(Box::new(Object::Bool(false))).duplicate();
    assert!(matches!(copy, Object::ReturnValue(inner) if matches!(*inner, Object::Bool(false))));
}

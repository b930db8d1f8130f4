use rustlox::interpret::{evaluate_unary, is_truthy, ArithOp, Environment, Interpreter, RuntimeError, Value};
use rustlox::parse::{Expression, ParseError, Statement, UnaryOp};
use rustlox::session::{LoxError, RustLox};

fn literal(text: String) -> u64 {
    text.parse::<f64>().unwrap().to_bits()
}

fn arith(op: ArithOp, a: u64, b: u64) -> u64 {
    let (x, y) = (f64::from_bits(a), f64::from_bits(b));
    let r = match op {
        ArithOp::Add => x + y,
        ArithOp::Subtract => x - y,
        ArithOp::Multiply => x * y,
        ArithOp::Divide => x / y,
    };
    r.to_bits()
}

fn number(x: f64) -> Value {
    Value::Number(x.to_bits())
}

fn run(source: &str) -> (Vec<Value>, Result<(), LoxError>) {
    let mut lox = RustLox::new(literal, arith);
    let mut out = Vec::new();
    let r = lox.run(source, &mut out);
    (out, r)
}

fn printed(source: &str) -> Vec<Value> {
    let (out, r) = run(source);
    assert_eq!(r, Ok(()), "{}", source);
    out
}

#[test]
fn number_literal_reads_as_double() {
    assert_eq!(printed("print 12.5;"), vec![number(12.5)]);
    assert_eq!(printed("print 0.1;"), vec![number(0.1)]);
    assert_eq!(printed("12.5;"), vec![]);
}

#[test]
fn multiplication_before_addition() {
    assert_eq!(printed("print 1 + 2 * 3;"), vec![number(7.0)]);
}

#[test]
fn grouping_changes_the_result() {
    assert_eq!(printed("print (1 + 2) * 3;"), vec![number(9.0)]);
    assert_ne!(printed("print (1 + 2) * 3;"), printed("print 1 + 2 * 3;"));
}

#[test]
fn assignment_updates_declared_variable() {
    assert_eq!(printed("var x = 5; x = x + 1; print x;"), vec![number(6.0)]);
}

#[test]
fn assignment_to_undeclared_variable_fails() {
    assert_eq!(run("y = 1;"), (vec![], Err(LoxError::Runtime(RuntimeError::UndefinedVariable))));
}

#[test]
fn cross_kind_equality_is_false() {
    assert_eq!(printed("print nil == false;"), vec![Value::Boolean(false)]);
    assert_eq!(printed("print 0 == \"0\";"), vec![Value::Boolean(false)]);
    assert_eq!(printed("print nil != false;"), vec![Value::Boolean(true)]);
}

#[test]
fn same_kind_equality() {
    assert_eq!(
        printed("print nil == nil; print \"a\" == \"a\"; print \"a\" == \"b\"; print true == true;"),
        vec![Value::Boolean(true), Value::Boolean(true), Value::Boolean(false), Value::Boolean(true)]
    );
}

#[test]
fn number_equality_follows_doubles() {
    assert_eq!(
        printed("print 0 / 0 == 0 / 0; print -0 == 0; print 1.5 == 1.5; print 1 == 2;"),
        vec![Value::Boolean(false), Value::Boolean(true), Value::Boolean(true), Value::Boolean(false)]
    );
}

#[test]
fn division_by_zero_is_infinity() {
    assert_eq!(printed("print 1 / 0;"), vec![number(f64::INFINITY)]);
    assert_eq!(printed("print -1 / 0;"), vec![number(f64::NEG_INFINITY)]);
    let out = printed("print 0 / 0;");
    match out[0] {
        Value::Number(bits) => assert!(f64::from_bits(bits).is_nan()),
        _ => panic!("not a number"),
    }
}

#[test]
fn truthiness_of_not() {
    assert_eq!(
        printed("print !nil; print !false; print !0; print !true; print !\"\";"),
        vec![
            Value::Boolean(true),
            Value::Boolean(true),
            Value::Boolean(false),
            Value::Boolean(false),
            Value::Boolean(false),
        ]
    );
}

#[test]
fn redeclaration_overwrites() {
    assert_eq!(printed("var x = 1; var x = 2; print x;"), vec![number(2.0)]);
}

#[test]
fn declaration_without_initializer_is_nil() {
    assert_eq!(printed("var a; print a;"), vec![Value::Nil]);
}

#[test]
fn invalid_assignment_target_is_a_parse_error() {
    assert_eq!(
        run("1 = 2;"),
        (vec![], Err(LoxError::Parse(ParseError::InvalidAssignmentTarget { line: 1 })))
    );
}

#[test]
fn parse_error_runs_nothing() {
    let mut lox = RustLox::new(literal, arith);
    let mut out = Vec::new();
    assert_eq!(
        lox.run("var a = 1; print a; print", &mut out),
        Err(LoxError::Parse(ParseError::ExpectedExpression { line: 1 }))
    );
    assert_eq!(out, vec![]);
    assert_eq!(
        lox.run("print a;", &mut out),
        Err(LoxError::Runtime(RuntimeError::UndefinedVariable))
    );
}

#[test]
fn arithmetic_operand_order() {
    assert_eq!(
        printed("print 5 - 3; print 6 / 4; print 2 * -3; print 0.5 + 0.25;"),
        vec![number(2.0), number(1.5), number(-6.0), number(0.75)]
    );
}

#[test]
fn comparisons() {
    assert_eq!(
        printed("print 1 < 2; print 2 <= 2; print 3 > 2; print 2 >= 3; print -1 < 0; print -2 < -1;"),
        vec![
            Value::Boolean(true),
            Value::Boolean(true),
            Value::Boolean(true),
            Value::Boolean(false),
            Value::Boolean(true),
            Value::Boolean(true),
        ]
    );
    assert_eq!(
        printed("print 0 / 0 < 1; print 0 / 0 >= 1; print -0 <= 0; print 1 / 0 > 1000000;"),
        vec![Value::Boolean(false), Value::Boolean(false), Value::Boolean(true), Value::Boolean(true)]
    );
}

#[test]
fn negation() {
    assert_eq!(printed("print -3; print --3; print -(1 - 1);"), vec![number(-3.0), number(3.0), number(-0.0)]);
}

#[test]
fn strings_print_their_text() {
    assert_eq!(
        printed("var s = \"hi\"; print s;"),
        vec![Value::StringLiteral("hi".to_string())]
    );
}

#[test]
fn negation_of_non_number_fails() {
    assert_eq!(run("-\"a\";"), (vec![], Err(LoxError::Runtime(RuntimeError::NegationOnNonNumber))));
}

#[test]
fn comparison_with_non_number_fails() {
    assert_eq!(
        run("print 1 < \"a\";"),
        (vec![], Err(LoxError::Runtime(RuntimeError::ComparisonWithNonNumber)))
    );
}

#[test]
fn arithmetic_with_non_number_fails() {
    assert_eq!(
        run("print \"a\" + 1;"),
        (vec![], Err(LoxError::Runtime(RuntimeError::ArithmeticWithNonNumber)))
    );
    assert_eq!(
        run("print nil * 2;"),
        (vec![], Err(LoxError::Runtime(RuntimeError::ArithmeticWithNonNumber)))
    );
}

#[test]
fn reading_undeclared_variable_fails() {
    assert_eq!(run("print z;"), (vec![], Err(LoxError::Runtime(RuntimeError::UndefinedVariable))));
}

#[test]
fn runtime_error_keeps_earlier_effects() {
    let mut lox = RustLox::new(literal, arith);
    let mut out = Vec::new();
    assert_eq!(
        lox.run("var a = 1; print a; print -nil; print 2;", &mut out),
        Err(LoxError::Runtime(RuntimeError::NegationOnNonNumber))
    );
    assert_eq!(out, vec![number(1.0)]);
    out.clear();
    assert_eq!(lox.run("print a;", &mut out), Ok(()));
    assert_eq!(out, vec![number(1.0)]);
}

#[test]
fn variables_persist_across_runs() {
    let mut lox = RustLox::new(literal, arith);
    let mut out = Vec::new();
    assert_eq!(lox.run("var a = 1;", &mut out), Ok(()));
    assert_eq!(lox.run("a = a + 41;", &mut out), Ok(()));
    assert_eq!(lox.run("print a;", &mut out), Ok(()));
    assert_eq!(out, vec![number(42.0)]);
}

#[test]
fn assignment_evaluates_to_assigned_value() {
    assert_eq!(printed("var a; var b; a = b = 3; print a; print b;"), vec![number(3.0), number(3.0)]);
}

#[test]
fn interpreter_runs_statements() {
    let mut interpreter = Interpreter::new(literal, arith);
    let mut out = Vec::new();
    let program = vec![
        Statement::VarDecl("n".to_string(), Some(Expression::Number("2".to_string()))),
        Statement::PrintStmt(Expression::Variable("n".to_string())),
    ];
    assert_eq!(interpreter.interpret(program, &mut out), Ok(()));
    assert_eq!(out, vec![number(2.0)]);
}

#[test]
fn environment_binds_names() {
    let mut env = Environment::new();
    let x = "x".to_string();
    assert!(!env.contains(&x));
    assert_eq!(env.get(&x), None);
    env.define(x.clone(), Value::Boolean(true));
    env.define("y".to_string(), Value::Nil);
    env.define(x.clone(), number(3.0));
    assert!(env.contains(&x));
    assert_eq!(env.get(&x), Some(number(3.0)));
    assert_eq!(env.get(&"y".to_string()), Some(Value::Nil));
}

#[test]
fn unary_operators_on_values() {
    assert_eq!(evaluate_unary(UnaryOp::Negate, number(2.5)), Ok(number(-2.5)));
    assert_eq!(evaluate_unary(UnaryOp::Not, number(0.0)), Ok(Value::Boolean(false)));
    assert_eq!(
        evaluate_unary(UnaryOp::Negate, Value::Nil),
        Err(RuntimeError::NegationOnNonNumber)
    );
    assert!(is_truthy(&number(0.0)));
    assert!(!is_truthy(&Value::Nil));
    assert!(!is_truthy(&Value::Boolean(false)));
    assert!(is_truthy(&Value::StringLiteral(String::new())));
}

#[test]
fn value_clone_is_equal() {
    let v = Value::StringLiteral("abc".to_string());
    assert_eq!(v.clone(), v);
}

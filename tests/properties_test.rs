use lemon_lisp::integer::Integer;
use lemon_lisp::environment::Environment;
use lemon_lisp::error::{ParseError, RuntimeError, TokenizeError};
use lemon_lisp::evaluator::Evaluator;
use lemon_lisp::interpreter::Interpreter;
use lemon_lisp::math::FloatArithmetic;
use lemon_lisp::optimizer::optimize_closure;
use lemon_lisp::parser::read;
use lemon_lisp::reader::{Token, TokenStream};
use lemon_lisp::value::{Closure, Keyword, Numeric, Value};

struct F64;

impl FloatArithmetic for F64 {
    fn add(&self, a: u64, b: u64) -> u64 {
        (f64::from_bits(a) + f64::from_bits(b)).to_bits()
    }
    fn sub(&self, a: u64, b: u64) -> u64 {
        (f64::from_bits(a) - f64::from_bits(b)).to_bits()
    }
    fn mul(&self, a: u64, b: u64) -> u64 {
        (f64::from_bits(a) * f64::from_bits(b)).to_bits()
    }
    fn div(&self, a: u64, b: u64) -> u64 {
        (f64::from_bits(a) / f64::from_bits(b)).to_bits()
    }
    fn from_integer(&self, n: &Integer) -> u64 {
        n.to_text().parse::<f64>().unwrap_or(f64::NAN).to_bits()
    }
    fn parse(&self, text: &String) -> u64 {
        text.parse::<f64>().unwrap_or(f64::NAN).to_bits()
    }
    fn show(&self, bits: u64) -> String {
        format!("{:?}", f64::from_bits(bits))
    }
}

fn integer(n: i64) -> Value {
    Value::Numeric(Numeric::Integer(Integer::from_i64(n)))
}

fn float(x: f64) -> Value {
    Value::Numeric(Numeric::Float(x.to_bits()))
}

fn sym(s: &str) -> Value {
    Value::Symbol(s.to_string())
}

fn run(text: &str) -> Result<Value, RuntimeError> {
    let mut interpreter = Interpreter::new(F64);
    interpreter.eval(text)
}

#[test]
fn sum_and_product_are_left_folds() {
    assert_eq!(run("(+)"), Ok(integer(0)));
    assert_eq!(run("(*)"), Ok(integer(1)));
    assert_eq!(run("(+ 1 2 3 4)"), Ok(integer(10)));
    assert_eq!(run("(* 2 3 4)"), Ok(integer(24)));
    assert_eq!(run("(- 20 5 3 2)"), Ok(integer(10)));
}

#[test]
fn integers_have_no_width_limit() {
    let text = |r: Result<Value, RuntimeError>| r.map(|v| v.to_text(&F64));
    assert_eq!(text(run("(+ 9223372036854775807 1)")), Ok("9223372036854775808".to_string()));
    assert_eq!(text(run("(+ 18446744073709551615 1)")), Ok("18446744073709551616".to_string()));
    assert_eq!(text(run("(- -9223372036854775808)")), Ok("9223372036854775808".to_string()));
    assert_eq!(text(run("(* 9223372036854775807 2)")), Ok("18446744073709551614".to_string()));
    assert_eq!(
        text(run("(* 99999999999999999999 99999999999999999999)")),
        Ok("9999999999999999999800000000000000000001".to_string())
    );
    assert_eq!(text(run("(/ -9223372036854775808 -1)")), Ok("9223372036854775808".to_string()));
    assert_eq!(run("(/ -9223372036854775808 -1 0)"), Err(RuntimeError::DivideByZero));
    assert_eq!(text(run("(- 100000000000000000000 1)")), Ok("99999999999999999999".to_string()));
    assert_eq!(text(run("(/ 100000000000000000000 -7)")), Ok("-14285714285714285714".to_string()));
    assert_eq!(run("(= 100000000000000000000 (* 10000000000 10000000000))"), Ok(Value::Bool(true)));
    assert_eq!(run("(+ 9223372036854775807 1 0.5)").map(|v| matches!(v, Value::Numeric(Numeric::Float(_)))), Ok(true));
}

#[test]
fn negation_and_reciprocal() {
    assert_eq!(run("(- 5)"), run("(- 0 5)"));
    assert_eq!(run("(- 5)"), Ok(integer(-5)));
    assert_eq!(run("(/ 2)"), Ok(float(0.5)));
    assert_eq!(run("(/ 0.5)"), Ok(float(2.0)));
}

#[test]
fn division_by_zero_in_any_position() {
    assert_eq!(run("(/ 0)"), Err(RuntimeError::DivideByZero));
    assert_eq!(run("(/ 10 0 2)"), Err(RuntimeError::DivideByZero));
    assert_eq!(run("(/ 10 2 0)"), Err(RuntimeError::DivideByZero));
    assert_eq!(run("(/ 1.5 0.0)"), Err(RuntimeError::DivideByZero));
    assert_eq!(run("(/ 1.5 -0.0)"), Err(RuntimeError::DivideByZero));
    assert_eq!(run("(/ 0 5)"), Ok(integer(0)));
}

#[test]
fn integer_division_truncates() {
    assert_eq!(run("(/ 7 2)"), Ok(integer(3)));
    assert_eq!(run("(/ -7 2)"), Ok(integer(-3)));
}

#[test]
fn mixed_arithmetic_yields_float() {
    assert_eq!(run("(+ 1 2.5)"), Ok(float(3.5)));
    assert_eq!(run("(* 2 0.5)"), Ok(float(1.0)));
    assert_eq!(run("(- 3.0 1)"), Ok(float(2.0)));
    assert_eq!(run("(/ 3 1.5)"), Ok(float(2.0)));
}

#[test]
fn self_recursion_runs_as_a_loop() {
    let mut environment = Environment::new();
    let evaluator = Evaluator { floats: F64 };
    for expr in read("(define (f x) (f x))", &F64).unwrap().iter() {
        assert_eq!(evaluator.eval_value(expr, &mut environment, 0, 100), Ok(Value::Void));
    }
    assert!(matches!(environment.get(0, "f"), Some(Value::TailCall(_))));
    let call = read("(f 1)", &F64).unwrap();
    assert_eq!(evaluator.eval_value(&call[0], &mut environment, 0, 200_000), Err(RuntimeError::StepLimitExceeded));
}

#[test]
fn conditional_self_recursion_counts_down() {
    let mut interpreter = Interpreter::new(F64);
    assert_eq!(interpreter.eval("(define (count n) (if (= n 0) n (count (- n 1))))"), Ok(Value::Void));
    assert!(matches!(interpreter.environment.get(0, "count"), Some(Value::TailCall(_))));
    assert_eq!(interpreter.eval("(count 1000000)"), Ok(integer(0)));
    assert_eq!(interpreter.eval("(count 1)"), Ok(integer(0)));
}

#[test]
fn self_call_in_then_branch_loops_while_condition_holds() {
    let mut interpreter = Interpreter::new(F64);
    assert_eq!(interpreter.eval("(define (up n) (if (= n 5) n (up (+ n 1))))"), Ok(Value::Void));
    assert_eq!(interpreter.eval("(up 0)"), Ok(integer(5)));
    assert_eq!(interpreter.eval("(define (g n) (if (= n 5) (g (+ n 1)) n))"), Ok(Value::Void));
    if let Some(Value::TailCall(t)) = interpreter.environment.get(0, "g") {
        assert_eq!(
            *t.break_condition,
            Value::List(vec![
                Value::Keyword(Keyword::If),
                Value::List(vec![sym("="), sym("n"), integer(5)]),
                Value::Bool(false),
                Value::Bool(true),
            ])
        );
        assert_eq!(*t.return_expr, sym("n"));
    } else {
        panic!("expected a loop form");
    }
    assert_eq!(interpreter.eval("(g 5)"), Ok(integer(6)));
}

#[test]
fn lambda_is_never_rewritten() {
    let closure = Closure {
        name: None,
        params: vec!["x".to_string()],
        body: vec![Value::List(vec![sym("f"), sym("x")])],
        environment: 0,
    };
    assert!(matches!(optimize_closure(closure), Value::Closure(_)));
    assert_eq!(run("((lambda (a b) (+ a b)) 2 3)"), Ok(integer(5)));
    assert_eq!(run("((lambda x (* x x)) 4)"), Ok(integer(16)));
}

#[test]
fn nested_closures_see_their_defining_scope() {
    assert_eq!(run("(((lambda (x) (lambda (y) (+ x y))) 1) 2)"), Ok(integer(3)));
}

#[test]
fn shadowing_does_not_leak_out_of_a_call() {
    let mut interpreter = Interpreter::new(F64);
    assert_eq!(interpreter.eval("(define x 1) (define (f x) (define x 5) x) (f 2)"), Ok(integer(5)));
    assert_eq!(interpreter.eval("x"), Ok(integer(1)));
}

#[test]
fn only_false_is_falsy() {
    assert_eq!(run("(if #f 1 2)"), Ok(integer(2)));
    assert_eq!(run("(if 0 1 2)"), Ok(integer(1)));
    assert_eq!(run("(if #t 1 2)"), Ok(integer(1)));
    assert_eq!(run("(if \"\" 1 2)"), Ok(integer(1)));
    assert_eq!(run("(if '() 1 2)"), Ok(integer(1)));
}

#[test]
fn if_short_circuits() {
    assert_eq!(run("(if #t 1 undefined-name)"), Ok(integer(1)));
    assert_eq!(run("(if #f (/ 1 0) 2)"), Ok(integer(2)));
}

#[test]
fn error_variants() {
    assert_eq!(run("y"), Err(RuntimeError::UndefinedVariable("y".to_string())));
    assert_eq!(run("()"), Err(RuntimeError::EmptyList));
    assert_eq!(run("(1 2)"), Err(RuntimeError::NonCallableValue(integer(1))));
    assert_eq!(run("(define z 3) (z 1)"), Err(RuntimeError::NonCallableValue(integer(3))));
    assert_eq!(run("(define (h a) a) (h 1 2)"), Err(RuntimeError::InvalidArity { expected: 1, founded: 2 }));
    assert_eq!(run("(if 1 2)"), Err(RuntimeError::InvalidArity { expected: 3, founded: 2 }));
    assert_eq!(run("(-)"), Err(RuntimeError::InvalidArity { expected: 1, founded: 0 }));
    assert_eq!(run("(=)"), Err(RuntimeError::InvalidArity { expected: 1, founded: 0 }));
    assert_eq!(
        run("(+ 1 \"a\")"),
        Err(RuntimeError::TypeError { expected: "numeric".to_string(), founded: Value::String("a".to_string()) })
    );
    assert_eq!(
        run("(define 5 3)"),
        Err(RuntimeError::TypeError { expected: "symbol or list".to_string(), founded: integer(5) })
    );
    assert_eq!(
        run("(define (f 1) 2)"),
        Err(RuntimeError::TypeError { expected: "symbol".to_string(), founded: integer(1) })
    );
    assert_eq!(run("(define (f x))"), Err(RuntimeError::EmptyList));
    assert_eq!(
        run("(define (1))"),
        Err(RuntimeError::TypeError { expected: "symbol".to_string(), founded: integer(1) })
    );
    assert_eq!(
        run("(define (f 1))"),
        Err(RuntimeError::TypeError { expected: "symbol".to_string(), founded: integer(1) })
    );
    assert_eq!(run("(define () 1)"), Err(RuntimeError::EmptyList));
    assert_eq!(run("(lambda)"), Err(RuntimeError::EmptyList));
}

#[test]
fn unresolvable_closure_scope_is_reported() {
    let mut environment = Environment::new();
    let evaluator = Evaluator { floats: F64 };
    let closure = Closure { name: None, params: vec![], body: vec![integer(1)], environment: 99 };
    let call = Value::List(vec![Value::Closure(closure)]);
    assert_eq!(evaluator.eval_value(&call, &mut environment, 0, 10), Err(RuntimeError::InvalidClosure));
}

#[test]
fn syntax_errors_are_runtime_errors() {
    assert_eq!(run("(+ 1"), Err(RuntimeError::SyntaxError(ParseError::MissingToken(Token::RParen))));
    assert_eq!(run(")"), Err(RuntimeError::SyntaxError(ParseError::InvalidSyntax(Token::RParen))));
    assert_eq!(
        run("\"abc"),
        Err(RuntimeError::SyntaxError(ParseError::LexicalError(TokenizeError::UnclosedString)))
    );
    assert_eq!(run("'"), Err(RuntimeError::SyntaxError(ParseError::UnexpectedEOF)));
    assert_eq!(
        run("a{b"),
        Err(RuntimeError::SyntaxError(ParseError::LexicalError(TokenizeError::UnexpectedChar('{'))))
    );
}

#[test]
fn failure_keeps_earlier_bindings() {
    let mut interpreter = Interpreter::new(F64);
    assert!(interpreter.eval("(define b 1) (missing) (define c 2)").is_err());
    assert_eq!(interpreter.eval("b"), Ok(integer(1)));
    assert_eq!(interpreter.eval("c"), Err(RuntimeError::UndefinedVariable("c".to_string())));
}

#[test]
fn definitions_persist_between_evaluations() {
    let mut interpreter = Interpreter::new(F64);
    assert_eq!(interpreter.eval("(define a 3)"), Ok(Value::Void));
    assert_eq!(interpreter.eval("(+ a 1)"), Ok(integer(4)));
    assert_eq!(interpreter.eval(""), Ok(Value::Void));
}

#[test]
fn numeric_equality_across_representations() {
    assert_eq!(run("(= 1 1 1)"), Ok(Value::Bool(true)));
    assert_eq!(run("(= 1 2)"), Ok(Value::Bool(false)));
    assert_eq!(run("(= 1 1.0)"), Ok(Value::Bool(true)));
    assert_eq!(run("(= 0.0 -0.0)"), Ok(Value::Bool(true)));
    assert_eq!(run("(= 7)"), Ok(Value::Bool(true)));
}

#[test]
fn quoted_values_are_not_evaluated() {
    assert_eq!(run("'(1 2)"), Ok(Value::List(vec![integer(1), integer(2)])));
    assert_eq!(run("'x"), Ok(sym("x")));
    assert_eq!(run("\"text\""), Ok(Value::String("text".to_string())));
}

#[test]
fn reader_literals() {
    assert_eq!(run("#x1f"), Ok(integer(31)));
    assert_eq!(run("#b101"), Ok(integer(5)));
    assert_eq!(run("#o17"), Ok(integer(15)));
    assert_eq!(run("#t"), Ok(Value::Bool(true)));
    assert_eq!(run("+5"), Ok(integer(5)));
    assert_eq!(run("-2"), Ok(integer(-2)));
    assert_eq!(run(".05"), Ok(float(0.05)));
    assert_eq!(run("#z1"), Err(RuntimeError::SyntaxError(ParseError::InvalidSyntax(Token::Symbol("#z1".to_string())))));
    assert_eq!(run("#b102"), Err(RuntimeError::SyntaxError(ParseError::InvalidDigit("102".to_string()))));
    assert_eq!(run("1_000"), Ok(integer(1000)));
    assert_eq!(run("#x-ff"), Ok(integer(-255)));
    assert_eq!(run("#b1_000"), Ok(integer(8)));
    assert_eq!(run("#x_1"), Err(RuntimeError::SyntaxError(ParseError::InvalidDigit("_1".to_string()))));
    assert_eq!(run("99999999999999999999").map(|v| v.to_text(&F64)), Ok("99999999999999999999".to_string()));
}

#[test]
fn tokenizer_splits_text() {
    let tokens = TokenStream::new("(+ 1)").tokenize(&F64);
    assert_eq!(
        tokens,
        Ok(vec![Token::LParen, Token::Symbol("+".to_string()), Token::Integer(Integer::from_i64(1)), Token::RParen])
    );
    assert_eq!(
        TokenStream::new(" \"Hello \\\"Lain\\\"\" ").tokenize(&F64),
        Ok(vec![Token::String("Hello \"Lain\"".to_string())])
    );
    assert_eq!(TokenStream::new("[a] ; note\n'b").tokenize(&F64), Ok(vec![
        Token::LParen,
        Token::Symbol("a".to_string()),
        Token::RParen,
        Token::Quote,
        Token::Symbol("b".to_string()),
    ]));
    assert_eq!(TokenStream::new("a\"b\"").tokenize(&F64), Err(TokenizeError::UnexpectedChar('"')));
    assert_eq!(TokenStream::new("1.2").tokenize(&F64), Ok(vec![Token::Float(1.2f64.to_bits())]));
}

#[test]
fn environment_update_and_lookup() {
    let mut environment = Environment::new();
    environment.set(0, "a", integer(1));
    let child = environment.extend(0);
    assert_eq!(environment.get(child, "a"), Some(integer(1)));
    environment.set(child, "a", integer(2));
    assert_eq!(environment.get(child, "a"), Some(integer(2)));
    assert_eq!(environment.get(0, "a"), Some(integer(1)));
    let grandchild = environment.extend(0);
    assert_eq!(environment.update(grandchild, "a", integer(3)), Ok(()));
    assert_eq!(environment.get(0, "a"), Some(integer(3)));
    assert_eq!(environment.get(grandchild, "a"), Some(integer(3)));
    assert_eq!(
        environment.update(grandchild, "zz", integer(0)),
        Err(RuntimeError::UndefinedVariable("zz".to_string()))
    );
    assert_eq!(environment.get(0, "zz"), None);
    assert_eq!(environment.get(42, "a"), None);
}

#[test]
fn printed_forms() {
    let mut interpreter = Interpreter::new(F64);
    let shown = |r: Result<Value, RuntimeError>| match r {
        Ok(v) => v.to_text(&F64),
        Err(e) => e.to_text(&F64),
    };
    assert_eq!(shown(interpreter.eval("'(1 \"a\" #t (b) x)")), "(1 \"a\" #t (b) x)");
    assert_eq!(shown(interpreter.eval("-42")), "-42");
    assert_eq!(shown(interpreter.eval("'(quote)")), "(quote)");
    assert_eq!(shown(interpreter.eval("''a")), "'a");
    assert_eq!(shown(interpreter.eval("(define (sq x) (* x x)) sq")), "#<procedure:sq>");
    assert_eq!(shown(interpreter.eval("(lambda (x) x)")), "#<procedure>");
    assert_eq!(shown(interpreter.eval("+")), "#<procedure:+>");
    assert_eq!(shown(interpreter.eval("'()")), "()");
    assert_eq!(shown(interpreter.eval("(define (count n) (if (= n 0) n (count (- n 1)))) count")), "#<procedure:count>");
    assert_eq!(shown(interpreter.eval("nope")), "Undefined variable: nope");
    assert_eq!(shown(interpreter.eval("(sq 1 2)")), "Invalid arity: expected 1 arguments, but found 2");
    assert_eq!(shown(interpreter.eval("(1)")), "NonCallableValue: 1");
    assert_eq!(shown(interpreter.eval("(+ 1 'x)")), "TypeError: expected numeric, found x");
    assert_eq!(shown(interpreter.eval("(/ 1 0)")), "DivideByZero");
    assert_eq!(shown(interpreter.eval("(+ 1")), "SyntaxError: Missing token: )");
    assert_eq!(shown(interpreter.eval("\"open")), "SyntaxError: Lexical error: Unclosed string");
    assert_eq!(shown(interpreter.eval("a,b")), "SyntaxError: Lexical error: Unexpected character: ,");
    assert_eq!(Value::Keyword(Keyword::Lambda).to_text(&F64), "#<keyword:lambda>");
    assert_eq!(Value::Void.to_text(&F64), "#<void>");
}

#[test]
fn closure_equality_ignores_the_scope() {
    let a = Closure::new(Some("f".to_string()), vec!["x".to_string()], vec![sym("x")], 0);
    let b = Closure::new(Some("f".to_string()), vec!["x".to_string()], vec![sym("x")], 7);
    let c = Closure::new(Some("g".to_string()), vec!["x".to_string()], vec![sym("x")], 0);
    assert_eq!(a, b);
    assert_ne!(a, c);
    assert!(lemon_lisp::value::same_value(&Value::Closure(a.clone()), &Value::Closure(a.clone())));
    assert!(!lemon_lisp::value::same_value(&Value::Closure(a), &Value::Closure(b)));
}

#[test]
fn call_frames_are_released() {
    let mut interpreter = Interpreter::new(F64);
    assert_eq!(interpreter.eval("(define (inc x) (+ x 1)) (inc 1) (inc 2)"), Ok(integer(3)));
    assert_eq!(interpreter.environment.len(), 1);
    assert_eq!(
        interpreter.eval("(define (step n) (- n 1)) (define (down n) (if (= n 0) n (down (step n)))) (down 1000)"),
        Ok(integer(0))
    );
    assert_eq!(interpreter.environment.len(), 1);
    assert_eq!(interpreter.eval("(define add-to ((lambda (x) (lambda (y) (+ x y))) 10)) (add-to 5)"), Ok(integer(15)));
    assert_eq!(interpreter.environment.len(), 2);
}

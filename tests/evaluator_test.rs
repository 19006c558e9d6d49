use lemon_lisp::integer::Integer;
use lemon_lisp::environment::Environment;
use lemon_lisp::error::RuntimeError;
use lemon_lisp::evaluator::Evaluator;
use lemon_lisp::interpreter::FUEL;
use lemon_lisp::math::FloatArithmetic;
use lemon_lisp::parser::read;
use lemon_lisp::value::{Builtin, InternalFunction, Numeric, Value};

struct F64;

impl FloatArithmetic for F64 {
    fn add(&self, a: u64, b: u64) -> u64 {
        (f64::from_bits(a) + f64::from_bits(b)).to_bits()
    }
    fn sub(&self, a: u64, b: u64) -> u64 {
        (f64::from_bits(a) - f64::from_bits(b)).to_bits()
    }
    fn mul(&self, a: u64, b: u64) -> u64 {
        (f64::from_bits(a) * f64::from_bits(b)).to_bits()
    }
    fn div(&self, a: u64, b: u64) -> u64 {
        (f64::from_bits(a) / f64::from_bits(b)).to_bits()
    }
    fn from_integer(&self, n: &Integer) -> u64 {
        n.to_text().parse::<f64>().unwrap_or(f64::NAN).to_bits()
    }
    fn parse(&self, text: &String) -> u64 {
        text.parse::<f64>().unwrap_or(f64::NAN).to_bits()
    }
    fn show(&self, bits: u64) -> String {
        format!("{:?}", f64::from_bits(bits))
    }
}

fn sym(s: &str) -> Value {
    Value::Symbol(s.to_string())
}

fn integer(n: i64) -> Value {
    Value::Numeric(Numeric::Integer(Integer::from_i64(n)))
}

fn eval_input(input: &str, evaluator: &Evaluator<F64>, environment: &mut Environment) -> Result<Value, RuntimeError> {
    let parse_result = read(input, &evaluator.floats).map_err(RuntimeError::SyntaxError)?;
    let mut last = Ok(Value::Void);
    for value in parse_result.iter() {
        last = evaluator.eval_value(value, environment, 0, FUEL);
    }
    last
}

#[test]
fn test_define_var() {
    let mut environment = Environment::new();
    let evaluator = Evaluator { floats: F64 };

    let input = "(define a 2)";
    let result = eval_input(input, &evaluator, &mut environment);

    assert!(result.is_ok());
    assert_eq!(Some(integer(2)), environment.get(0, "a"));
}

#[test]
fn test_define_closure() {
    let mut environment = Environment::new();
    let evaluator = Evaluator { floats: F64 };

    let result = eval_input("(define (add-one n) (+ n 1))", &evaluator, &mut environment);
    assert!(result.is_ok());

    if let Some(Value::Closure(closure)) = environment.get(0, "add-one") {
        assert_eq!(Some("add-one".to_string()), closure.name);
        assert_eq!(vec!["n".to_string()], closure.params);
        assert_eq!(vec![Value::List(vec![sym("+"), sym("n"), integer(1)])], closure.body);
        assert!(environment.resolves(closure.environment));
    } else {
        panic!("Expected to find a closure named 'add-one' in the environment");
    };
}

#[test]
fn test_lambda() {
    let mut environment = Environment::new();
    let evaluator = Evaluator { floats: F64 };

    let result = eval_input("(lambda (a b) (+ a b))", &evaluator, &mut environment);

    assert!(result.is_ok());
    if let Ok(Value::Closure(closure)) = result {
        assert_eq!(None, closure.name);
        assert_eq!(vec!["a".to_string(), "b".to_string()], closure.params);
        assert_eq!(vec![Value::List(vec![sym("+"), sym("a"), sym("b")])], closure.body);
        assert!(environment.resolves(closure.environment));
    } else {
        panic!("Expected a closure");
    }
}

#[test]
fn test_optimize_tail_call() {
    let mut environment = Environment::new();
    let evaluator = Evaluator { floats: F64 };

    let result = eval_input("(define (loop) (loop))", &evaluator, &mut environment);

    assert!(result.is_ok());
    if let Some(Value::TailCall(tail_call)) = environment.get(0, "loop") {
        assert_eq!(Some("loop".to_string()), tail_call.closure.name);
        assert!(tail_call.closure.params.is_empty());
        assert!(tail_call.closure.body.is_empty());
        assert!(environment.resolves(tail_call.closure.environment));
        assert!(tail_call.updates.is_empty());
        assert_eq!(Value::Bool(false), *tail_call.break_condition);
        assert_eq!(Value::Void, *tail_call.return_expr);
    } else {
        panic!("Expected a tail call");
    }
}

#[test]
fn test_internal_fn() {
    let mut environment = Environment::new();
    let evaluator = Evaluator { floats: F64 };

    environment.set(
        0,
        "+",
        Value::InternalFunction(InternalFunction { name: "+".to_string(), function: Builtin::Add }),
    );

    let result = eval_input("(+ 2 3)", &evaluator, &mut environment);

    assert_eq!(Ok(integer(5)), result);
}

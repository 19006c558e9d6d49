use lemon_lisp::integer::Integer;
use lemon_lisp::interpreter::Interpreter;
use lemon_lisp::math::FloatArithmetic;
use lemon_lisp::value::{Numeric, Value};

struct F64;

impl FloatArithmetic for F64 {
    fn add(&self, a: u64, b: u64) -> u64 {
        (f64::from_bits(a) + f64::from_bits(b)).to_bits()
    }
    fn sub(&self, a: u64, b: u64) -> u64 {
        (f64::from_bits(a) - f64::from_bits(b)).to_bits()
    }
    fn mul(&self, a: u64, b: u64) -> u64 {
        (f64::from_bits(a) * f64::from_bits(b)).to_bits()
    }
    fn div(&self, a: u64, b: u64) -> u64 {
        (f64::from_bits(a) / f64::from_bits(b)).to_bits()
    }
    fn from_integer(&self, n: &Integer) -> u64 {
        n.to_text().parse::<f64>().unwrap_or(f64::NAN).to_bits()
    }
    fn parse(&self, text: &String) -> u64 {
        text.parse::<f64>().unwrap_or(f64::NAN).to_bits()
    }
    fn show(&self, bits: u64) -> String {
        format!("{:?}", f64::from_bits(bits))
    }
}

fn integer(n: i64) -> Value {
    Value::Numeric(Numeric::Integer(Integer::from_i64(n)))
}

fn float(x: f64) -> Value {
    Value::Numeric(Numeric::Float(x.to_bits()))
}

#[test]
fn test_simple_arithmetic() {
    let mut interpreter = Interpreter::new(F64);

    assert_eq!(interpreter.eval("(+ 4)"), Ok(integer(4)));
    assert_eq!(interpreter.eval("(+ 1 2 3)"), Ok(integer(6)));

    assert_eq!(interpreter.eval("(- 4)"), Ok(integer(-4)));
    assert_eq!(interpreter.eval("(- 9 5 2)"), Ok(integer(2)));

    assert_eq!(interpreter.eval("(* 7)"), Ok(integer(7)));
    assert_eq!(interpreter.eval("(* 1 2 3)"), Ok(integer(6)));

    assert_eq!(interpreter.eval("(/ 4)"), Ok(float(0.25)));
    assert_eq!(interpreter.eval("(/ 45 5 3)"), Ok(integer(3)));
}

#[test]
fn test_nested_arithmetic() {
    let mut interpreter = Interpreter::new(F64);

    assert_eq!(interpreter.eval("(+ 1 (* 2 3) (- 10 5))"), Ok(integer(12)));

    assert_eq!(interpreter.eval("(+ (* 2 (+ 3 4)) (- 10 5))"), Ok(integer(19)));

    assert_eq!(interpreter.eval("(* (/ 10 2) (- 7 3))"), Ok(integer(20)));

    assert_eq!(interpreter.eval("(- (+ 5 (* 3 4)) (/ 20 (- 6 2)))"), Ok(integer(12)));

    assert_eq!(interpreter.eval("(* (+ 2.5 1.5) (- 10 6))"), Ok(float(16.0)));

    assert_eq!(interpreter.eval("(+ 1 (- 2 (* 3 (/ 12 (+ 2 2)))))"), Ok(integer(-6)));

    assert_eq!(interpreter.eval("(* (- 0 3) (+ 4 (/ 10 5)))"), Ok(integer(-18)));

    assert_eq!(interpreter.eval("(- (* 2.5 (+ 3 4)) (/ 15 3))"), Ok(float(12.5)));
}

use crate::environment::owned_name;
use crate::error::{error_view, result_view, Fault, RuntimeError};
use crate::integer::{trunc_div, Integer};
use crate::value::{lemma_values_view, value_view, values_view, Builtin, Num, Numeric, Val, Value};
use vstd::prelude::*;

verus! {

/// Floating-point arithmetic on IEEE-754 binary64 bit patterns, supplied by
/// the host that runs the interpreter.
pub trait FloatArithmetic {
    fn add(&self, a: u64, b: u64) -> u64;

    fn sub(&self, a: u64, b: u64) -> u64;

    fn mul(&self, a: u64, b: u64) -> u64;

    fn div(&self, a: u64, b: u64) -> u64;

    /// The float nearest to `n`.
    fn from_integer(&self, n: &Integer) -> u64;

    /// The float that a decimal literal such as `-3.25` denotes.
    fn parse(&self, text: &String) -> u64;

    /// The printed form of a float.
    fn show(&self, bits: u64) -> String;
}

/// Whether the bit pattern is positive or negative zero.
pub open spec fn float_is_zero(bits: u64) -> bool {
    bits & 0x7fff_ffff_ffff_ffffu64 == 0
}

pub open spec fn numeric_is_zero(n: Num) -> bool {
    match n {
        Num::Int(i) => i == 0,
        Num::Float(b) => float_is_zero(b),
    }
}

/// What an arithmetic fold has reached: an exact integer, some float whose
/// bits the host computed, or a failure.
pub enum Tally {
    Int(int),
    Float,
    Fault(Fault),
}

pub open spec fn tally_of(n: Num) -> Tally {
    match n {
        Num::Int(i) => Tally::Int(i),
        Num::Float(_) => Tally::Float,
    }
}

/// One arithmetic step `acc op n`. Integer with integer stays exact
/// (division truncates toward zero); any float operand makes the result a
/// float; dividing by a zero of either kind fails.
pub open spec fn arith(op: Builtin, acc: Tally, n: Num) -> Tally {
    if op == Builtin::Div && numeric_is_zero(n) {
        Tally::Fault(Fault::DivideByZero)
    } else {
        match (acc, n) {
            (Tally::Int(a), Num::Int(b)) => match op {
                Builtin::Add => Tally::Int(a + b),
                Builtin::Sub => Tally::Int(a - b),
                Builtin::Mul => Tally::Int(a * b),
                _ => Tally::Int(trunc_div(a, b)),
            },
            (Tally::Fault(e), _) => Tally::Fault(e),
            _ => Tally::Float,
        }
    }
}

pub open spec fn not_numeric(v: Val) -> Fault {
    Fault::TypeError("numeric"@, v)
}

/// One step of a fold over an argument, which must be a number.
pub open spec fn step(op: Builtin, acc: Tally, v: Val) -> Tally {
    match acc {
        Tally::Fault(e) => Tally::Fault(e),
        _ => match v {
            Val::Numeric(n) => arith(op, acc, n),
            _ => Tally::Fault(not_numeric(v)),
        },
    }
}

/// The left fold of `op` over `s`, from `init`.
pub open spec fn fold(op: Builtin, init: Tally, s: Seq<Val>) -> Tally
    decreases s.len(),
{
    if s.len() == 0 {
        init
    } else {
        step(op, fold(op, init, s.drop_last()), s.last())
    }
}

/// The first argument of `-` or `/`, which must be a number.
pub open spec fn start(v: Val) -> Tally {
    match v {
        Val::Numeric(n) => tally_of(n),
        _ => Tally::Fault(not_numeric(v)),
    }
}

/// What an arithmetic built-in computes from its evaluated arguments.
pub open spec fn arith_tally(op: Builtin, args: Seq<Val>) -> Tally {
    match op {
        Builtin::Add => fold(op, Tally::Int(0), args),
        Builtin::Mul => fold(op, Tally::Int(1), args),
        _ => if args.len() == 0 {
            Tally::Fault(Fault::InvalidArity(1, 0))
        } else if args.len() == 1 {
            match op {
                Builtin::Sub => step(op, Tally::Int(0), args[0]),
                _ => match args[0] {
                    Val::Numeric(n) => if numeric_is_zero(n) {
                        Tally::Fault(Fault::DivideByZero)
                    } else {
                        Tally::Float
                    },
                    _ => Tally::Fault(not_numeric(args[0])),
                },
            }
        } else {
            fold(op, start(args[0]), args.drop_first())
        },
    }
}

/// `r` is the outcome that `t` describes.
pub open spec fn meets(r: Result<Value, RuntimeError>, t: Tally) -> bool {
    match t {
        Tally::Int(i) => r matches Ok(v) && value_view(v) == Val::Numeric(Num::Int(i)),
        Tally::Float => r matches Ok(v) && value_view(v) is Numeric && value_view(v)->Numeric_0 is Float,
        Tally::Fault(e) => r matches Err(x) && error_view(x) == e,
    }
}

/// `r` is the number that `t` describes.
pub open spec fn numeric_meets(r: Result<Numeric, RuntimeError>, t: Tally) -> bool {
    match t {
        Tally::Int(i) => r matches Ok(n) && n@ == Num::Int(i),
        Tally::Float => r matches Ok(n) && n is Float,
        Tally::Fault(e) => r matches Err(x) && error_view(x) == e,
    }
}

proof fn lemma_fold_from_fault(op: Builtin, e: Fault, s: Seq<Val>)
    ensures
        fold(op, Tally::Fault(e), s) == Tally::Fault(e),
    decreases s.len(),
{
    if s.len() > 0 {
        lemma_fold_from_fault(op, e, s.drop_last());
    }
}

/// Once a fold has failed, folding more arguments keeps that failure.
pub proof fn lemma_fold_fault_sticks(op: Builtin, init: Tally, s: Seq<Val>, k: int, e: Fault)
    requires
        0 <= k <= s.len(),
        fold(op, init, s.subrange(0, k)) == Tally::Fault(e),
    ensures
        fold(op, init, s) == Tally::Fault(e),
    decreases s.len() - k,
{
    if k < s.len() {
        assert(s.subrange(0, k + 1).drop_last() =~= s.subrange(0, k));
        lemma_fold_fault_sticks(op, init, s, k + 1, e);
    } else {
        assert(s.subrange(0, k) =~= s);
    }
}

impl Numeric {
    /// Whether the number is zero; a float is zero with either sign.
    pub fn is_zero(&self) -> (r: bool)
        ensures
            r == numeric_is_zero(self@),
    {
        match self {
            Numeric::Integer(i) => i.is_zero(),
            Numeric::Float(b) => *b & 0x7fff_ffff_ffff_ffffu64 == 0,
        }
    }
}

/// The number that a value holds, or a type error.
pub fn to_numeric(v: &Value) -> (r: Result<Numeric, RuntimeError>)
    ensures
        match v@ {
            Val::Numeric(n) => r matches Ok(m) && m@ == n,
            _ => r matches Err(x) && error_view(x) == not_numeric(v@),
        },
{
    match v {
        Value::Numeric(n) => Ok(n.copy()),
        _ => Err(RuntimeError::TypeError { expected: owned_name("numeric"), founded: v.copy() }),
    }
}

fn float_op<F: FloatArithmetic>(floats: &F, op: Builtin, a: u64, b: u64) -> u64 {
    match op {
        Builtin::Add => floats.add(a, b),
        Builtin::Sub => floats.sub(a, b),
        Builtin::Mul => floats.mul(a, b),
        _ => floats.div(a, b),
    }
}

/// One arithmetic step `acc op n`.
pub fn apply<F: FloatArithmetic>(floats: &F, op: Builtin, acc: Numeric, n: Numeric) -> (r: Result<Numeric, RuntimeError>)
    requires
        op != Builtin::NumericEqual,
    ensures
        numeric_meets(r, arith(op, tally_of(acc@), n@)),
{
    if op == Builtin::Div && n.is_zero() {
        return Err(RuntimeError::DivideByZero);
    }
    match (acc, n) {
        (Numeric::Integer(a), Numeric::Integer(b)) => {
            let c = match op {
                Builtin::Add => a.add(&b),
                Builtin::Sub => a.sub(&b),
                Builtin::Mul => a.mul(&b),
                _ => a.div(&b),
            };
            Ok(Numeric::Integer(c))
        },
        (Numeric::Integer(a), Numeric::Float(b)) => Ok(Numeric::Float(float_op(floats, op, floats.from_integer(&a), b))),
        (Numeric::Float(a), Numeric::Integer(b)) => Ok(Numeric::Float(float_op(floats, op, a, floats.from_integer(&b)))),
        (Numeric::Float(a), Numeric::Float(b)) => Ok(Numeric::Float(float_op(floats, op, a, b))),
    }
}

/// The left fold of `op` over `args[from..]`, from `init`.
fn fold_from<F: FloatArithmetic>(floats: &F, op: Builtin, init: Numeric, args: &Vec<Value>, from: usize) -> (r: Result<Numeric, RuntimeError>)
    requires
        from <= args.len(),
        op != Builtin::NumericEqual,
    ensures
        numeric_meets(r, fold(op, tally_of(init@), values_view(args@).subrange(from as int, args@.len() as int))),
{
    let ghost vs = values_view(args@);
    proof { lemma_values_view(args@); }
    let mut acc = init;
    let mut i: usize = from;
    while i < args.len()
        invariant
            from <= i <= args.len(),
            op != Builtin::NumericEqual,
            vs == values_view(args@),
            vs.len() == args@.len(),
            forall|k: int| 0 <= k < args@.len() ==> #[trigger] vs[k] == value_view(args@[k]),
            fold(op, tally_of(init@), vs.subrange(from as int, i as int)) == tally_of(acc@),
        decreases args.len() - i,
    {
        let ghost sub = vs.subrange(from as int, i + 1);
        proof {
            assert(sub.drop_last() =~= vs.subrange(from as int, i as int));
            assert(sub.last() == vs[i as int]);
        }
        let n = match to_numeric(&args[i]) {
            Ok(n) => n,
            Err(e) => {
                proof {
                    assert(vs.subrange(from as int, args@.len() as int).subrange(0, i + 1 - from) =~= sub);
                    lemma_fold_fault_sticks(op, tally_of(init@), vs.subrange(from as int, args@.len() as int), i + 1 - from, error_view(e));
                }
                return Err(e);
            },
        };
        match apply(floats, op, acc, n) {
            Ok(m) => {
                acc = m;
            },
            Err(e) => {
                proof {
                    assert(vs.subrange(from as int, args@.len() as int).subrange(0, i + 1 - from) =~= sub);
                    lemma_fold_fault_sticks(op, tally_of(init@), vs.subrange(from as int, args@.len() as int), i + 1 - from, error_view(e));
                }
                return Err(e);
            },
        }
        i = i + 1;
    }
    Ok(acc)
}

fn to_value(r: Result<Numeric, RuntimeError>) -> (v: Result<Value, RuntimeError>)
    ensures
        forall|t: Tally| numeric_meets(r, t) ==> meets(v, t),
{
    match r {
        Ok(n) => Ok(Value::Numeric(n)),
        Err(e) => Err(e),
    }
}

/// `(+ n...)`: the sum, from 0.
pub fn add<F: FloatArithmetic>(args: &Vec<Value>, floats: &F) -> (r: Result<Value, RuntimeError>)
    ensures
        meets(r, arith_tally(Builtin::Add, values_view(args@))),
{
    proof {
        lemma_values_view(args@);
        assert(values_view(args@).subrange(0, args@.len() as int) =~= values_view(args@));
    }
    to_value(fold_from(floats, Builtin::Add, Numeric::Integer(Integer::zero()), args, 0))
}

/// `(* n...)`: the product, from 1.
pub fn mul<F: FloatArithmetic>(args: &Vec<Value>, floats: &F) -> (r: Result<Value, RuntimeError>)
    ensures
        meets(r, arith_tally(Builtin::Mul, values_view(args@))),
{
    proof {
        lemma_values_view(args@);
        assert(values_view(args@).subrange(0, args@.len() as int) =~= values_view(args@));
    }
    to_value(fold_from(floats, Builtin::Mul, Numeric::Integer(Integer::from_i64(1)), args, 0))
}

/// The fold of `-` or `/` over two or more arguments, from the first.
fn fold_rest<F: FloatArithmetic>(op: Builtin, args: &Vec<Value>, floats: &F) -> (r: Result<Value, RuntimeError>)
    requires
        args.len() >= 2,
        op != Builtin::NumericEqual,
    ensures
        meets(r, fold(op, start(values_view(args@)[0]), values_view(args@).drop_first())),
{
    proof {
        lemma_values_view(args@);
        assert(values_view(args@).subrange(1, args@.len() as int) =~= values_view(args@).drop_first());
    }
    match to_numeric(&args[0]) {
        Ok(first) => to_value(fold_from(floats, op, first, args, 1)),
        Err(e) => {
            proof { lemma_fold_from_fault(op, error_view(e), values_view(args@).drop_first()); }
            Err(e)
        },
    }
}

/// `(- n)` is `0 - n`; `(- n m...)` subtracts from the first.
pub fn sub<F: FloatArithmetic>(args: &Vec<Value>, floats: &F) -> (r: Result<Value, RuntimeError>)
    ensures
        meets(r, arith_tally(Builtin::Sub, values_view(args@))),
{
    proof { lemma_values_view(args@); }
    if args.len() == 0 {
        return Err(RuntimeError::InvalidArity { expected: 1, founded: 0 });
    }
    if args.len() == 1 {
        return match to_numeric(&args[0]) {
            Ok(n) => to_value(apply(floats, Builtin::Sub, Numeric::Integer(Integer::zero()), n)),
            Err(e) => Err(e),
        };
    }
    fold_rest(Builtin::Sub, args, floats)
}

/// `(/ n)` is the float `1 / n`; `(/ n m...)` divides the first. A zero
/// divisor anywhere fails.
pub fn div<F: FloatArithmetic>(args: &Vec<Value>, floats: &F) -> (r: Result<Value, RuntimeError>)
    ensures
        meets(r, arith_tally(Builtin::Div, values_view(args@))),
{
    proof { lemma_values_view(args@); }
    if args.len() == 0 {
        return Err(RuntimeError::InvalidArity { expected: 1, founded: 0 });
    }
    if args.len() == 1 {
        return match to_numeric(&args[0]) {
            Ok(n) => if n.is_zero() {
                Err(RuntimeError::DivideByZero)
            } else {
                let one = floats.from_integer(&Integer::from_i64(1));
                let q = match n {
                    Numeric::Integer(i) => floats.div(one, floats.from_integer(&i)),
                    Numeric::Float(b) => floats.div(one, b),
                };
                Ok(Value::Numeric(Numeric::Float(q)))
            },
            Err(e) => Err(e),
        };
    }
    fold_rest(Builtin::Div, args, floats)
}

/// The type error for the first argument that is not a number, if any.
pub open spec fn first_fault(s: Seq<Val>) -> Option<Fault>
    decreases s.len(),
{
    if s.len() == 0 {
        None
    } else {
        match first_fault(s.drop_last()) {
            Some(f) => Some(f),
            None => match s.last() {
                Val::Numeric(_) => None,
                v => Some(not_numeric(v)),
            },
        }
    }
}

pub open spec fn is_integer(v: Val) -> bool {
    v is Numeric && v->Numeric_0 is Int
}

/// What `(= n...)` returns: `None` where a float takes part, whose comparison
/// the host's conversion decides.
pub open spec fn equal_outcome(s: Seq<Val>) -> Option<Result<Val, Fault>> {
    if s.len() == 0 {
        Some(Err(Fault::InvalidArity(1, 0)))
    } else {
        match first_fault(s) {
            Some(f) => Some(Err(f)),
            None => if forall|i: int| 0 <= i < s.len() ==> is_integer(#[trigger] s[i]) {
                Some(Ok(Val::Bool(forall|i: int| 0 <= i < s.len() ==> #[trigger] s[i] == s[0])))
            } else {
                None
            },
        }
    }
}

/// Whether two floats are equal: zeros of either sign are equal, NaN equals
/// nothing.
pub open spec fn float_equal(a: u64, b: u64) -> bool {
    (float_is_zero(a) && float_is_zero(b)) || (a == b && !(a & 0x7ff0_0000_0000_0000u64
        == 0x7ff0_0000_0000_0000u64 && a & 0x000f_ffff_ffff_ffffu64 != 0))
}

/// Numeric equality across representations.
pub fn numeric_eq<F: FloatArithmetic>(a: &Numeric, b: &Numeric, floats: &F) -> (r: bool)
    ensures
        (a@ is Int && b@ is Int) ==> r == (a@ == b@),
        (a@ is Float && b@ is Float) ==> r == float_equal(a@->Float_0, b@->Float_0),
{
    let (x, y) = match (a, b) {
        (Numeric::Integer(i), Numeric::Integer(j)) => {
            return i.equals(j);
        },
        (Numeric::Integer(i), Numeric::Float(g)) => (floats.from_integer(i), *g),
        (Numeric::Float(f), Numeric::Integer(j)) => (*f, floats.from_integer(j)),
        (Numeric::Float(f), Numeric::Float(g)) => (*f, *g),
    };
    (x & 0x7fff_ffff_ffff_ffffu64 == 0 && y & 0x7fff_ffff_ffff_ffffu64 == 0) || (x == y && !(x
        & 0x7ff0_0000_0000_0000u64 == 0x7ff0_0000_0000_0000u64 && x & 0x000f_ffff_ffff_ffffu64 != 0))
}

proof fn lemma_first_fault_sticks(s: Seq<Val>, k: int, f: Fault)
    requires
        0 <= k <= s.len(),
        first_fault(s.subrange(0, k)) == Some(f),
    ensures
        first_fault(s) == Some(f),
    decreases s.len() - k,
{
    if k < s.len() {
        assert(s.subrange(0, k + 1).drop_last() =~= s.subrange(0, k));
        lemma_first_fault_sticks(s, k + 1, f);
    } else {
        assert(s.subrange(0, k) =~= s);
    }
}

/// `(= n...)`: whether every argument equals the first.
pub fn numeric_equal<F: FloatArithmetic>(args: &Vec<Value>, floats: &F) -> (r: Result<Value, RuntimeError>)
    ensures
        match equal_outcome(values_view(args@)) {
            Some(o) => result_view(r) == o,
            None => r matches Ok(v) && v@ is Bool,
        },
{
    let ghost vs = values_view(args@);
    proof { lemma_values_view(args@); }
    if args.len() == 0 {
        return Err(RuntimeError::InvalidArity { expected: 1, founded: 0 });
    }
    let mut nums: Vec<Numeric> = Vec::new();
    let mut i: usize = 0;
    while i < args.len()
        invariant
            i <= args.len(),
            vs == values_view(args@),
            vs.len() == args@.len(),
            forall|k: int| 0 <= k < args@.len() ==> #[trigger] vs[k] == value_view(args@[k]),
            first_fault(vs.subrange(0, i as int)) is None,
            nums@.len() == i,
            forall|k: int| 0 <= k < i ==> vs[k] == Val::Numeric((#[trigger] nums@[k])@),
        decreases args.len() - i,
    {
        let ghost sub = vs.subrange(0, i + 1);
        proof {
            assert(sub.drop_last() =~= vs.subrange(0, i as int));
            assert(sub.last() == vs[i as int]);
        }
        match to_numeric(&args[i]) {
            Ok(n) => {
                nums.push(n);
            },
            Err(e) => {
                proof { lemma_first_fault_sticks(vs, i + 1, error_view(e)); }
                return Err(e);
            },
        }
        i = i + 1;
    }
    proof { assert(vs.subrange(0, vs.len() as int) =~= vs); }
    let first = &nums[0];
    let mut all = true;
    let mut j: usize = 1;
    while j < nums.len()
        invariant
            1 <= j <= nums@.len(),
            nums@.len() == vs.len(),
            *first == nums@[0],
            forall|k: int| 0 <= k < vs.len() ==> vs[k] == Val::Numeric((#[trigger] nums@[k])@),
            (forall|k: int| 0 <= k < vs.len() ==> is_integer(#[trigger] vs[k])) ==> all == (forall|k: int| 0 <= k < j ==> #[trigger] vs[k] == vs[0]),
        decreases nums.len() - j,
    {
        let e = numeric_eq(&nums[j], first, floats);
        proof {
            if forall|k: int| 0 <= k < vs.len() ==> is_integer(#[trigger] vs[k]) {
                assert(is_integer(vs[j as int]));
                assert(is_integer(vs[0]));
            }
        }
        all = all && e;
        j = j + 1;
    }
    Ok(Value::Bool(all))
}

} // verus!

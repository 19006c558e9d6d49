use crate::environment::{env_extend, env_set, lookup, ScopeVal};
use crate::error::Fault;
use crate::math::{arith_tally, equal_outcome, Tally};
use crate::optimizer::optimized;
use crate::value::{Builtin, ClosureVal, Keyword, Num, TailCallVal, Val};
use vstd::prelude::*;

verus! {

/// The outcome of evaluating an expression: its result and the environment
/// afterwards. `None` where a float operation of the host decides the rest.
pub type Outcome = Option<(Result<Val, Fault>, Seq<ScopeVal>)>;

/// The outcome of evaluating a sequence of expressions one after another.
pub type ArgsOutcome = Option<(Result<Seq<Val>, Fault>, Seq<ScopeVal>)>;

/// What a built-in returns for evaluated arguments; `None` where the host's
/// float arithmetic decides.
pub open spec fn builtin_outcome(b: Builtin, args: Seq<Val>) -> Option<Result<Val, Fault>> {
    match b {
        Builtin::NumericEqual => equal_outcome(args),
        _ => match arith_tally(b, args) {
            Tally::Int(i) => Some(Ok(Val::Numeric(Num::Int(i)))),
            Tally::Float => None,
            Tally::Fault(e) => Some(Err(e)),
        },
    }
}

/// The names in `s`, or a type error for the first element that is no symbol.
pub open spec fn symbols(s: Seq<Val>) -> Result<Seq<Seq<char>>, Fault>
    decreases s.len(),
{
    if s.len() == 0 {
        Ok(Seq::empty())
    } else {
        match symbols(s.drop_last()) {
            Err(e) => Err(e),
            Ok(names) => match s.last() {
                Val::Symbol(n) => Ok(names.push(n)),
                v => Err(Fault::TypeError("symbol"@, v)),
            },
        }
    }
}

/// Binds `ps[i]` to `vs[i]` in scope `sc` for `i < n`, in order.
pub open spec fn bind(env: Seq<ScopeVal>, sc: int, ps: Seq<Seq<char>>, vs: Seq<Val>, n: nat) -> Seq<ScopeVal>
    decreases n,
{
    if n == 0 {
        env
    } else {
        env_set(bind(env, sc, ps, vs, (n - 1) as nat), sc, ps[n - 1], vs[n - 1])
    }
}

pub open spec fn min(a: nat, b: nat) -> nat {
    if a <= b {
        a
    } else {
        b
    }
}

/// Whether the environment can take one more scope.
pub open spec fn room(env: Seq<ScopeVal>) -> bool {
    env.len() < usize::MAX
}

/// The environment of a new call frame of `c` holding `vals`; the frame is
/// scope `env.len()`.
pub open spec fn frame(c: ClosureVal, vals: Seq<Val>, env: Seq<ScopeVal>) -> Seq<ScopeVal> {
    bind(env_extend(env, c.environment as int), env.len() as int, c.params, vals, min(c.params.len(), vals.len()))
}

/// Whether `v` holds a closure over a scope at index `n` or above.
pub open spec fn escapes(v: Val, n: int) -> bool
    decreases v, 0int,
{
    match v {
        Val::List(items) => escapes_upto(items, items.len() as int, n),
        Val::Quoted(b) => escapes(*b, n),
        Val::Closure(c) => c.environment >= n || escapes_upto(c.body, c.body.len() as int, n),
        Val::TailCall(t) => t.closure.environment >= n || escapes_upto(t.closure.body, t.closure.body.len() as int, n)
            || escapes_upto(t.updates, t.updates.len() as int, n) || escapes(*t.break_condition, n) || escapes(
            *t.return_expr,
            n,
        ),
        _ => false,
    }
}

/// Whether one of `items[..k]` holds a closure over a scope at `n` or above.
pub open spec fn escapes_upto(items: Seq<Val>, k: int, n: int) -> bool
    decreases items, k,
{
    if k <= 0 || k > items.len() {
        false
    } else {
        escapes_upto(items, k - 1, n) || escapes(items[k - 1], n)
    }
}

/// The end of a call whose frame is scope `n`: the scopes from `n` up are
/// released, unless the returned value holds a closure over one of them.
pub open spec fn release(o: Outcome, n: int) -> Outcome {
    match o {
        None => None,
        Some((Ok(v), e)) => if escapes(v, n) {
            Some((Ok(v), e))
        } else {
            Some((Ok(v), e.subrange(0, n)))
        },
        Some((Err(f), e)) => Some((Err(f), e.subrange(0, n))),
    }
}

/// Evaluation of one expression in scope `s`.
pub open spec fn eval(e: Val, env: Seq<ScopeVal>, s: int, fuel: nat) -> Outcome
    decreases fuel, 0nat, 0nat,
{
    if fuel == 0 {
        Some((Err(Fault::StepLimitExceeded), env))
    } else {
        match e {
            Val::Void | Val::Closure(_) | Val::TailCall(_) | Val::InternalFunction(_, _) => Some((Ok(Val::Void), env)),
            Val::Symbol(n) => match lookup(env, s, n) {
                Some(v) => Some((Ok(v), env)),
                None => Some((Err(Fault::UndefinedVariable(n)), env)),
            },
            Val::Quoted(b) => Some((Ok(*b), env)),
            Val::List(l) => eval_list(l, env, s, (fuel - 1) as nat),
            _ => Some((Ok(e), env)),
        }
    }
}

/// Evaluation of `es` from left to right, each in the environment that the
/// one before left.
pub open spec fn eval_args(es: Seq<Val>, env: Seq<ScopeVal>, s: int, fuel: nat) -> ArgsOutcome
    decreases fuel, 1nat, es.len(),
{
    if es.len() == 0 {
        Some((Ok(Seq::empty()), env))
    } else {
        match eval_args(es.drop_last(), env, s, fuel) {
            None => None,
            Some((Err(e), env1)) => Some((Err(e), env1)),
            Some((Ok(vs), env1)) => match eval(es.last(), env1, s, fuel) {
                None => None,
                Some((Err(e), env2)) => Some((Err(e), env2)),
                Some((Ok(v), env2)) => Some((Ok(vs.push(v)), env2)),
            },
        }
    }
}

/// A body: every expression in turn; the value of the last (`Void` for an
/// empty body).
pub open spec fn run_body(body: Seq<Val>, env: Seq<ScopeVal>, s: int, fuel: nat) -> Outcome
    decreases fuel, 1nat, body.len(),
{
    if body.len() == 0 {
        Some((Ok(Val::Void), env))
    } else {
        match run_body(body.drop_last(), env, s, fuel) {
            None => None,
            Some((Err(e), env1)) => Some((Err(e), env1)),
            Some((Ok(_), env1)) => eval(body.last(), env1, s, fuel),
        }
    }
}

/// Applies a closure to evaluated arguments.
pub open spec fn apply_closure(c: ClosureVal, vals: Seq<Val>, env: Seq<ScopeVal>, fuel: nat) -> Outcome
    decreases fuel, 2nat, 0nat,
{
    if c.params.len() != vals.len() {
        Some((Err(Fault::InvalidArity(c.params.len() as usize, vals.len() as usize)), env))
    } else if c.environment >= env.len() {
        Some((Err(Fault::InvalidClosure), env))
    } else if !room(env) {
        Some((Err(Fault::StepLimitExceeded), env))
    } else {
        release(run_body(c.body, frame(c, vals, env), env.len() as int, fuel), env.len() as int)
    }
}

/// Calls a closure on argument expressions evaluated in scope `s`.
pub open spec fn call_closure(c: ClosureVal, es: Seq<Val>, env: Seq<ScopeVal>, s: int, fuel: nat) -> Outcome
    decreases fuel, 3nat, 0nat,
{
    if c.params.len() != es.len() {
        Some((Err(Fault::InvalidArity(c.params.len() as usize, es.len() as usize)), env))
    } else if c.environment >= env.len() {
        Some((Err(Fault::InvalidClosure), env))
    } else {
        match eval_args(es, env, s, fuel) {
            None => None,
            Some((Err(e), env1)) => Some((Err(e), env1)),
            Some((Ok(vals), env1)) => apply_closure(c, vals, env1, fuel),
        }
    }
}

/// One turn of the loop of a tail call, in its frame `sc`, and the turns
/// after it; at most `budget` turns.
pub open spec fn run_loop(t: TailCallVal, env: Seq<ScopeVal>, sc: int, fuel: nat, budget: nat) -> Outcome
    decreases fuel, 2nat, budget,
{
    if budget == 0 {
        Some((Err(Fault::StepLimitExceeded), env))
    } else {
        match eval_args(t.updates, env, sc, fuel) {
            None => None,
            Some((Err(e), env1)) => Some((Err(e), env1)),
            Some((Ok(vals), env1)) => {
                let env2 = bind(env1, sc, t.closure.params, vals, min(t.closure.params.len(), vals.len()));
                match run_body(t.closure.body, env2, sc, fuel) {
                    None => None,
                    Some((Err(e), env3)) => Some((Err(e), env3)),
                    Some((Ok(_), env3)) => match eval(*t.break_condition, env3, sc, fuel) {
                        None => None,
                        Some((Err(e), env4)) => Some((Err(e), env4)),
                        Some((Ok(b), env4)) => if b == Val::Bool(false) {
                            run_loop(t, env4, sc, fuel, (budget - 1) as nat)
                        } else {
                            eval(*t.return_expr, env4, sc, fuel)
                        },
                    },
                }
            },
        }
    }
}

/// Calls the loop form of a self-recursive closure.
pub open spec fn call_tail(t: TailCallVal, es: Seq<Val>, env: Seq<ScopeVal>, s: int, fuel: nat) -> Outcome
    decreases fuel, 3nat, 0nat,
{
    let c = t.closure;
    if c.params.len() != es.len() {
        Some((Err(Fault::InvalidArity(c.params.len() as usize, es.len() as usize)), env))
    } else if c.environment >= env.len() {
        Some((Err(Fault::InvalidClosure), env))
    } else {
        match eval_args(es, env, s, fuel) {
            None => None,
            Some((Err(e), env1)) => Some((Err(e), env1)),
            Some((Ok(vals), env1)) => if !room(env1) {
                Some((Err(Fault::StepLimitExceeded), env1))
            } else {
                release(
                    match run_body(c.body, frame(c, vals, env1), env1.len() as int, fuel) {
                        None => None,
                        Some((Err(e), env2)) => Some((Err(e), env2)),
                        Some((Ok(_), env2)) => run_loop(t, env2, env1.len() as int, fuel, fuel),
                    },
                    env1.len() as int,
                )
            },
        }
    }
}

/// `(define ...)`, given its operands.
pub open spec fn eval_define(ops: Seq<Val>, env: Seq<ScopeVal>, s: int, fuel: nat) -> Outcome
    decreases fuel, 2nat, 0nat,
{
    if ops.len() == 0 {
        Some((Err(Fault::EmptyList), env))
    } else {
        match ops[0] {
            Val::Symbol(name) => if ops.len() == 2 {
                match eval(ops[1], env, s, fuel) {
                    None => None,
                    Some((Err(e), env1)) => Some((Err(e), env1)),
                    Some((Ok(v), env1)) => Some((Ok(Val::Void), env_set(env1, s, name, v))),
                }
            } else {
                Some((Err(Fault::TypeError("symbol or list"@, ops[0])), env))
            },
            Val::List(info) => if info.len() == 0 {
                Some((Err(Fault::EmptyList), env))
            } else {
                match info[0] {
                    Val::Symbol(name) => match symbols(info.drop_first()) {
                        Err(e) => Some((Err(e), env)),
                        Ok(_) if ops.len() == 1 => Some((Err(Fault::EmptyList), env)),
                        Ok(params) => {
                            let c = ClosureVal {
                                name: Some(name),
                                params,
                                body: ops.drop_first(),
                                environment: s as usize,
                            };
                            Some((Ok(Val::Void), env_set(env, s, name, optimized(c))))
                        },
                    },
                    v => Some((Err(Fault::TypeError("symbol"@, v)), env)),
                }
            },
            v => Some((Err(Fault::TypeError("symbol or list"@, v)), env)),
        }
    }
}

/// `(lambda ...)`, given its operands.
pub open spec fn eval_lambda(ops: Seq<Val>, env: Seq<ScopeVal>, s: int) -> Outcome {
    if ops.len() == 0 {
        Some((Err(Fault::EmptyList), env))
    } else {
        match ops[0] {
            Val::List(ps) => match symbols(ps) {
                Err(e) => Some((Err(e), env)),
                Ok(params) => Some((Ok(Val::Closure(ClosureVal {
                    name: None,
                    params,
                    body: ops.drop_first(),
                    environment: s as usize,
                })), env)),
            },
            Val::Symbol(p) => Some((Ok(Val::Closure(ClosureVal {
                name: None,
                params: seq![p],
                body: ops.drop_first(),
                environment: s as usize,
            })), env)),
            v => Some((Err(Fault::TypeError("symbol or list"@, v)), env)),
        }
    }
}

/// `(if c a b)`, given its operands: `b` exactly when `c` is `#f`.
pub open spec fn eval_if(ops: Seq<Val>, env: Seq<ScopeVal>, s: int, fuel: nat) -> Outcome
    decreases fuel, 2nat, 0nat,
{
    if ops.len() != 3 {
        Some((Err(Fault::InvalidArity(3, ops.len() as usize)), env))
    } else {
        match eval(ops[0], env, s, fuel) {
            None => None,
            Some((Err(e), env1)) => Some((Err(e), env1)),
            Some((Ok(c), env1)) => if c == Val::Bool(false) {
                eval(ops[2], env1, s, fuel)
            } else {
                eval(ops[1], env1, s, fuel)
            },
        }
    }
}

/// A non-empty list: a special form, or a call.
pub open spec fn eval_list(l: Seq<Val>, env: Seq<ScopeVal>, s: int, fuel: nat) -> Outcome
    decreases fuel, 4nat, 0nat,
{
    if l.len() == 0 {
        Some((Err(Fault::EmptyList), env))
    } else {
        let ops = l.drop_first();
        match l[0] {
            Val::Closure(c) => match eval_args(ops, env, s, fuel) {
                None => None,
                Some((Err(e), env1)) => Some((Err(e), env1)),
                Some((Ok(vals), env1)) => apply_closure(c, vals, env1, fuel),
            },
            Val::Symbol(_) | Val::List(_) => match eval(l[0], env, s, fuel) {
                None => None,
                Some((Err(e), env1)) => Some((Err(e), env1)),
                Some((Ok(f), env1)) => match f {
                    Val::Closure(c) => call_closure(c, ops, env1, s, fuel),
                    Val::TailCall(t) => call_tail(t, ops, env1, s, fuel),
                    Val::InternalFunction(_, b) => match eval_args(ops, env1, s, fuel) {
                        None => None,
                        Some((Err(e), env2)) => Some((Err(e), env2)),
                        Some((Ok(vals), env2)) => match builtin_outcome(b, vals) {
                            None => None,
                            Some(r) => Some((r, env2)),
                        },
                    },
                    _ => Some((Err(Fault::NonCallableValue(f)), env1)),
                },
            },
            Val::Keyword(Keyword::Define) => eval_define(ops, env, s, fuel),
            Val::Keyword(Keyword::Lambda) => eval_lambda(ops, env, s),
            Val::Keyword(Keyword::If) => eval_if(ops, env, s, fuel),
            v => Some((Err(Fault::NonCallableValue(v)), env)),
        }
    }
}

} // verus!

use crate::value::{
    copy_string, tail_call_view, copy_values_from, lemma_values_view, value_view,
    values_view, Closure, ClosureVal, Keyword, TailCall, TailCallVal, Val, Value,
};
use vstd::prelude::*;

verus! {

/// The arguments of `e` when `e` is a call of the function named `name`.
pub open spec fn self_call_args(e: Val, name: Seq<char>) -> Option<Seq<Val>> {
    match e {
        Val::List(l) => if l.len() >= 1 && l[0] == Val::Symbol(name) {
            Some(l.drop_first())
        } else {
            None
        },
        _ => None,
    }
}

/// `(if c #f #t)`: true exactly when `c` is false.
pub open spec fn negation(c: Val) -> Val {
    Val::List(seq![Val::Keyword(Keyword::If), c, Val::Bool(false), Val::Bool(true)])
}

/// For the last body expression `l` (a list) of a function named `name`:
/// the loop's updates, break condition and return expression, when `l` is a
/// self-call in tail position.
pub open spec fn tail_shape(l: Seq<Val>, name: Seq<char>) -> Option<(Seq<Val>, Val, Val)> {
    if l.len() >= 1 && l[0] == Val::Symbol(name) {
        Some((l.drop_first(), Val::Bool(false), Val::Void))
    } else if l.len() == 4 && l[0] == Val::Keyword(Keyword::If) {
        match self_call_args(l[2], name) {
            Some(args) => Some((args, negation(l[1]), l[3])),
            None => match self_call_args(l[3], name) {
                Some(args) => Some((args, l[1], l[2])),
                None => None,
            },
        }
    } else {
        None
    }
}

/// What defining the closure `c` stores: its loop form when its body ends in
/// a self-call in tail position, else `c` itself.
pub open spec fn optimized(c: ClosureVal) -> Val {
    match c.name {
        None => Val::Closure(c),
        Some(name) => if c.body.len() >= 1 {
            match c.body.last() {
                Val::List(l) => match tail_shape(l, name) {
                    Some((updates, break_condition, return_expr)) => Val::TailCall(TailCallVal {
                        closure: ClosureVal { body: c.body.drop_last(), ..c },
                        updates,
                        break_condition: Box::new(break_condition),
                        return_expr: Box::new(return_expr),
                    }),
                    None => Val::Closure(c),
                },
                _ => Val::Closure(c),
            }
        } else {
            Val::Closure(c)
        },
    }
}

/// The parts of the loop form found in a tail self-call.
struct TailCallInfo {
    updates: Vec<Value>,
    break_condition: Value,
    return_expr: Value,
}

/// The arguments of `expr` when it is a call of the function named `name`.
fn extract_self_call_params(expr: &Value, name: &String) -> (r: Option<Vec<Value>>)
    ensures
        match r {
            Some(v) => self_call_args(expr@, name@) == Some(values_view(v@)),
            None => self_call_args(expr@, name@) is None,
        },
{
    proof {
        if let Value::List(l) = expr {
            lemma_values_view(l@);
        }
    }
    if let Value::List(list) = expr {
        if list.len() >= 1 {
            if let Value::Symbol(symbol) = &list[0] {
                if *symbol == *name {
                    let r = copy_values_from(list, 1);
                    proof {
                        assert(values_view(list@).subrange(1, list@.len() as int) =~= values_view(list@).drop_first());
                    }
                    return Some(r);
                }
            }
        }
    }
    None
}

/// Recognises a self-call in tail position in the last body expression.
fn detect_tail_call(expr: &Vec<Value>, name: &String) -> (r: Option<TailCallInfo>)
    ensures
        match r {
            Some(info) => tail_shape(values_view(expr@), name@) == Some(
                (values_view(info.updates@), value_view(info.break_condition), value_view(info.return_expr)),
            ),
            None => tail_shape(values_view(expr@), name@) is None,
        },
{
    proof {
        lemma_values_view(expr@);
    }
    if expr.len() >= 1 {
        if let Value::Symbol(symbol) = &expr[0] {
            if *symbol == *name {
                let updates = copy_values_from(expr, 1);
                proof {
                    assert(values_view(expr@).subrange(1, expr@.len() as int) =~= values_view(expr@).drop_first());
                }
                return Some(TailCallInfo { updates, break_condition: Value::Bool(false), return_expr: Value::Void });
            }
        }
    }
    if expr.len() == 4 {
        if let Value::Keyword(Keyword::If) = &expr[0] {
            match extract_self_call_params(&expr[2], name) {
                Some(updates) => {
                    let mut parts: Vec<Value> = Vec::new();
                    parts.push(Value::Keyword(Keyword::If));
                    parts.push(expr[1].copy());
                    parts.push(Value::Bool(false));
                    parts.push(Value::Bool(true));
                    proof {
                        lemma_values_view(parts@);
                        assert(values_view(parts@) =~= seq![Val::Keyword(Keyword::If), value_view(expr@[1]), Val::Bool(false), Val::Bool(true)]);
                    }
                    return Some(TailCallInfo {
                        updates,
                        break_condition: Value::List(parts),
                        return_expr: expr[3].copy(),
                    });
                },
                None => {},
            }
            match extract_self_call_params(&expr[3], name) {
                Some(updates) => {
                    return Some(TailCallInfo {
                        updates,
                        break_condition: expr[1].copy(),
                        return_expr: expr[2].copy(),
                    });
                },
                None => {},
            }
        }
    }
    None
}

/// Rewrites a named closure whose body ends in a self-call in tail position
/// into its loop form; any other closure is returned as it is.
pub fn optimize_closure(closure: Closure) -> (r: Value)
    ensures
        r@ == optimized(closure@),
{
    proof {
        lemma_values_view(closure.body@);
    }
    let name = match &closure.name {
        Some(n) => copy_string(n),
        None => {
            return Value::Closure(closure);
        },
    };
    let n = closure.body.len();
    if n == 0 {
        return Value::Closure(closure);
    }
    let info = match &closure.body[n - 1] {
        Value::List(last) => {
            assert(closure@.body.last() == Val::List(values_view(last@)));
            detect_tail_call(last, &name)
        },
        _ => None,
    };
    match info {
        Some(info) => {
            let ghost c = closure@;
            let mut body = closure.body;
            body.pop();
            proof {
                lemma_values_view(body@);
                assert(values_view(body@) =~= c.body.drop_last());
            }
            let residual = Closure {
                name: closure.name,
                params: closure.params,
                body,
                environment: closure.environment,
            };
            assert(residual@ == ClosureVal { body: c.body.drop_last(), ..c });
            let tc = TailCall {
                closure: residual,
                updates: info.updates,
                break_condition: Box::new(info.break_condition),
                return_expr: Box::new(info.return_expr),
            };
            assert(tail_call_view(tc) == TailCallVal {
                closure: ClosureVal { body: c.body.drop_last(), ..c },
                updates: values_view(tc.updates@),
                break_condition: Box::new(value_view(*tc.break_condition)),
                return_expr: Box::new(value_view(*tc.return_expr)),
            });
            Value::TailCall(tc)
        },
        None => Value::Closure(closure),
    }
}

} // verus!

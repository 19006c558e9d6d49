use crate::environment::{env_wf, owned_name, Environment, ScopeVal};
use crate::error::{error_view, result_view, Fault, RuntimeError};
use crate::math::{self, FloatArithmetic};
use crate::optimizer::optimize_closure;
use crate::semantics::{
    apply_closure, bind, builtin_outcome, escapes, escapes_upto, release, call_closure, call_tail, eval, eval_args, eval_define,
    eval_if, eval_lambda, eval_list, min, run_body, run_loop, symbols, ArgsOutcome, Outcome,
};
use crate::value::{
    closure_view, copy_string, copy_values_from, lemma_values_view, strings_view, tail_call_view, value_view,
    values_view, Builtin, Closure, Keyword, TailCall, Val, Value,
};
use vstd::prelude::*;

verus! {

/// `r` and the environment `env` after it are what `o` describes, where `o`
/// describes anything.
pub open spec fn agrees(o: Outcome, r: Result<Value, RuntimeError>, env: Seq<ScopeVal>) -> bool {
    match o {
        Some((res, e)) => result_view(r) == res && env == e,
        None => true,
    }
}

pub open spec fn args_agree(o: ArgsOutcome, r: Result<Vec<Value>, RuntimeError>, env: Seq<ScopeVal>) -> bool {
    match o {
        Some((Ok(vs), e)) => r matches Ok(v) && values_view(v@) == vs && env == e,
        Some((Err(f), e)) => r matches Err(x) && error_view(x) == f && env == e,
        None => true,
    }
}

/// What every evaluation step keeps: a well-formed environment that only
/// grows.
pub open spec fn keeps(a: Seq<ScopeVal>, b: Seq<ScopeVal>) -> bool {
    env_wf(b) && a.len() <= b.len()
}

proof fn lemma_bind_len(env: Seq<ScopeVal>, sc: int, ps: Seq<Seq<char>>, vs: Seq<Val>, n: nat)
    requires
        0 <= sc < env.len(),
    ensures
        bind(env, sc, ps, vs, n).len() == env.len(),
    decreases n,
{
    if n > 0 {
        lemma_bind_len(env, sc, ps, vs, (n - 1) as nat);
    }
}

proof fn lemma_eval_args_sticks(es: Seq<Val>, env: Seq<ScopeVal>, s: int, fuel: nat, k: int)
    requires
        0 <= k <= es.len(),
        eval_args(es.subrange(0, k), env, s, fuel) matches Some((Ok(_), _)) ==> false,
    ensures
        eval_args(es, env, s, fuel) == eval_args(es.subrange(0, k), env, s, fuel),
    decreases es.len() - k,
{
    if k < es.len() {
        assert(es.subrange(0, k + 1).drop_last() =~= es.subrange(0, k));
        lemma_eval_args_sticks(es, env, s, fuel, k + 1);
    } else {
        assert(es.subrange(0, k) =~= es);
    }
}

pub proof fn lemma_run_body_sticks(es: Seq<Val>, env: Seq<ScopeVal>, s: int, fuel: nat, k: int)
    requires
        0 <= k <= es.len(),
        run_body(es.subrange(0, k), env, s, fuel) matches Some((Ok(_), _)) ==> false,
    ensures
        run_body(es, env, s, fuel) == run_body(es.subrange(0, k), env, s, fuel),
    decreases es.len() - k,
{
    if k < es.len() {
        assert(es.subrange(0, k + 1).drop_last() =~= es.subrange(0, k));
        lemma_run_body_sticks(es, env, s, fuel, k + 1);
    } else {
        assert(es.subrange(0, k) =~= es);
    }
}

proof fn lemma_symbols_sticks(es: Seq<Val>, k: int)
    requires
        0 <= k <= es.len(),
        symbols(es.subrange(0, k)) is Err,
    ensures
        symbols(es) == symbols(es.subrange(0, k)),
    decreases es.len() - k,
{
    if k < es.len() {
        assert(es.subrange(0, k + 1).drop_last() =~= es.subrange(0, k));
        lemma_symbols_sticks(es, k + 1);
    } else {
        assert(es.subrange(0, k) =~= es);
    }
}

/// The names that `v[from..]` holds, or a type error for the first element
/// that is no symbol.
fn collect_symbols(v: &Vec<Value>, from: usize) -> (r: Result<Vec<String>, RuntimeError>)
    requires
        from <= v.len(),
    ensures
        match symbols(values_view(v@).subrange(from as int, v@.len() as int)) {
            Ok(ns) => r matches Ok(x) && strings_view(x@) == ns,
            Err(e) => r matches Err(x) && error_view(x) == e,
        },
{
    let ghost vs = values_view(v@).subrange(from as int, v@.len() as int);
    proof { lemma_values_view(v@); }
    let mut out: Vec<String> = Vec::new();
    let mut i: usize = from;
    proof {
        assert(strings_view(out@) =~= Seq::<Seq<char>>::empty());
        assert(vs.subrange(0, 0) =~= Seq::<Val>::empty());
    }
    while i < v.len()
        invariant
            from <= i <= v.len(),
            vs == values_view(v@).subrange(from as int, v@.len() as int),
            values_view(v@).len() == v@.len(),
            forall|k: int| 0 <= k < v@.len() ==> #[trigger] values_view(v@)[k] == value_view(v@[k]),
            symbols(vs.subrange(0, i - from)) == Ok::<Seq<Seq<char>>, Fault>(strings_view(out@)),
        decreases v.len() - i,
    {
        let ghost sub = vs.subrange(0, i + 1 - from);
        proof {
            assert(sub.drop_last() =~= vs.subrange(0, i - from));
            assert(sub.last() == value_view(v@[i as int]));
        }
        match &v[i] {
            Value::Symbol(n) => {
                let ghost before = out@;
                out.push(copy_string(n));
                proof {
                    assert(strings_view(out@) =~= strings_view(before).push(n@));
                }
            },
            other => {
                proof { lemma_symbols_sticks(vs, i + 1 - from); }
                return Err(RuntimeError::TypeError { expected: owned_name("symbol"), founded: other.copy() });
            },
        }
        i = i + 1;
    }
    proof { assert(vs.subrange(0, i - from) =~= vs); }
    Ok(out)
}

proof fn lemma_escapes_grow(items: Seq<Val>, k: int, n: int)
    requires
        0 <= k <= items.len(),
        escapes_upto(items, k, n),
    ensures
        escapes_upto(items, items.len() as int, n),
    decreases items.len() - k,
{
    if k < items.len() {
        lemma_escapes_grow(items, k + 1, n);
    }
}

/// Whether one of `items` holds a closure over a scope at `n` or above.
fn escapes_items(items: &Vec<Value>, n: usize) -> (r: bool)
    ensures
        r == escapes_upto(values_view(items@), items@.len() as int, n as int),
    decreases items,
{
    let ghost vs = values_view(items@);
    proof { lemma_values_view(items@); }
    let mut i: usize = 0;
    while i < items.len()
        invariant
            i <= items.len(),
            vs == values_view(items@),
            vs.len() == items@.len(),
            forall|k: int| 0 <= k < items@.len() ==> #[trigger] vs[k] == value_view(items@[k]),
            !escapes_upto(vs, i as int, n as int),
        decreases items.len() - i,
    {
        proof {
            vstd::std_specs::vec::axiom_vec_index_decreases(*items, i as int);
        }
        if escapes_value(&items[i], n) {
            proof { lemma_escapes_grow(vs, i + 1, n as int); }
            return true;
        }
        i = i + 1;
    }
    false
}

/// Whether `v` holds a closure over a scope at `n` or above.
fn escapes_value(v: &Value, n: usize) -> (r: bool)
    ensures
        r == escapes(v@, n as int),
    decreases v,
{
    match v {
        Value::List(items) => {
            proof { lemma_values_view(items@); }
            escapes_items(items, n)
        },
        Value::Quoted(b) => escapes_value(&**b, n),
        Value::Closure(c) => {
            proof {
                assert(v@ == Val::Closure(closure_view(*c)));
                lemma_values_view(c.body@);
            }
            c.environment >= n || escapes_items(&c.body, n)
        },
        Value::TailCall(t) => {
            proof {
                assert(v@ == Val::TailCall(tail_call_view(*t)));
                assert(tail_call_view(*t).closure == closure_view(t.closure));
                lemma_values_view(t.closure.body@);
                lemma_values_view(t.updates@);
            }
            t.closure.environment >= n || escapes_items(&t.closure.body, n) || escapes_items(&t.updates, n)
                || escapes_value(&*t.break_condition, n) || escapes_value(&*t.return_expr, n)
        },
        _ => false,
    }
}

/// Ends a call whose frame is scope `base`: releases the scopes from `base`
/// up unless the result holds a closure over one of them.
fn release_frames(env: &mut Environment, base: usize, r: Result<Value, RuntimeError>) -> (out: Result<Value, RuntimeError>)
    requires
        env_wf(old(env)@),
        base <= old(env)@.len(),
    ensures
        out == r,
        env_wf(final(env)@),
        release(Some((result_view(r), old(env)@)), base as int) == Some((result_view(r), final(env)@)),
{
    let keep = match &r {
        Ok(v) => escapes_value(v, base),
        Err(_) => false,
    };
    if !keep {
        env.truncate(base);
    }
    r
}

/// Runs the built-in `b` on evaluated arguments.
fn call_builtin<F: FloatArithmetic>(b: Builtin, args: &Vec<Value>, floats: &F) -> (r: Result<Value, RuntimeError>)
    ensures
        match builtin_outcome(b, values_view(args@)) {
            Some(o) => result_view(r) == o,
            None => true,
        },
{
    match b {
        Builtin::Add => math::add(args, floats),
        Builtin::Sub => math::sub(args, floats),
        Builtin::Mul => math::mul(args, floats),
        Builtin::Div => math::div(args, floats),
        Builtin::NumericEqual => math::numeric_equal(args, floats),
    }
}

/// Evaluates expressions over an environment. Float arithmetic is the
/// host's, through `floats`.
pub struct Evaluator<F: FloatArithmetic> {
    pub floats: F,
}

impl<F: FloatArithmetic> Evaluator<F> {
    /// Evaluates `value` in scope `scope`, with at most `fuel` nested steps.
    pub fn eval_value(&self, value: &Value, env: &mut Environment, scope: usize, fuel: u64) -> (r: Result<Value, RuntimeError>)
        requires
            env_wf(old(env)@),
            scope < old(env)@.len(),
        ensures
            keeps(old(env)@, final(env)@),
            agrees(eval(value@, old(env)@, scope as int, fuel as nat), r, final(env)@),
        decreases fuel, 0nat, 0nat,
    {
        if fuel == 0 {
            return Err(RuntimeError::StepLimitExceeded);
        }
        match value {
            Value::Void | Value::Closure(_) | Value::TailCall(_) | Value::InternalFunction(_) => Ok(Value::Void),
            Value::Symbol(symbol) => Self::eval_symbol(symbol, env, scope),
            Value::Quoted(inner) => Ok((**inner).copy()),
            Value::List(list) => self.eval_list(list, env, scope, fuel - 1),
            _ => Ok(value.copy()),
        }
    }

    fn eval_symbol(symbol: &String, env: &Environment, scope: usize) -> (r: Result<Value, RuntimeError>)
        requires
            env_wf(env@),
        ensures
            match crate::environment::lookup(env@, scope as int, symbol@) {
                Some(v) => result_view(r) == Ok::<Val, Fault>(v),
                None => result_view(r) == Err::<Val, Fault>(Fault::UndefinedVariable(symbol@)),
            },
    {
        match env.get(scope, symbol.as_str()) {
            Some(v) => Ok(v),
            None => Err(RuntimeError::UndefinedVariable(copy_string(symbol))),
        }
    }

    /// Evaluates `l[from..]` from left to right.
    fn eval_args(&self, l: &Vec<Value>, from: usize, env: &mut Environment, scope: usize, fuel: u64) -> (r: Result<Vec<Value>, RuntimeError>)
        requires
            env_wf(old(env)@),
            scope < old(env)@.len(),
            from <= l.len(),
        ensures
            keeps(old(env)@, final(env)@),
            args_agree(
                eval_args(values_view(l@).subrange(from as int, l@.len() as int), old(env)@, scope as int, fuel as nat),
                r,
                final(env)@,
            ),
        decreases fuel, 1nat, 0nat,
    {
        let ghost es = values_view(l@).subrange(from as int, l@.len() as int);
        let ghost env0 = env@;
        proof { lemma_values_view(l@); }
        let mut out: Vec<Value> = Vec::new();
        let mut i: usize = from;
        while i < l.len()
            invariant
                from <= i <= l.len(),
                es == values_view(l@).subrange(from as int, l@.len() as int),
                values_view(l@).len() == l@.len(),
                forall|k: int| 0 <= k < l@.len() ==> #[trigger] values_view(l@)[k] == value_view(l@[k]),
                scope < env0.len(),
                env0 == old(env)@,
                keeps(env0, env@),
                match eval_args(es.subrange(0, i - from), env0, scope as int, fuel as nat) {
                    Some((Ok(vs), e)) => vs == values_view(out@) && e == env@,
                    Some((Err(_), _)) => false,
                    None => true,
                },
            decreases l.len() - i,
        {
            let ghost sub = es.subrange(0, i + 1 - from);
            let ghost before = out@;
            let ghost env_before = env@;
            proof {
                assert(sub.drop_last() =~= es.subrange(0, i - from));
                assert(sub.last() == value_view(l@[i as int]));
                lemma_values_view(before);
            }
            match self.eval_value(&l[i], env, scope, fuel) {
                Ok(v) => {
                    out.push(v);
                    proof {
                        lemma_values_view(out@);
                        assert(values_view(out@) =~= values_view(before).push(value_view(v)));
                    }
                },
                Err(e) => {
                    proof { lemma_eval_args_sticks(es, env0, scope as int, fuel as nat, i + 1 - from); }
                    return Err(e);
                },
            }
            i = i + 1;
        }
        proof { assert(es.subrange(0, i - from) =~= es); }
        Ok(out)
    }

    /// Evaluates a body in order; the value of its last expression, or
    /// `Void` for an empty body.
    fn run_body(&self, body: &Vec<Value>, env: &mut Environment, scope: usize, fuel: u64) -> (r: Result<Value, RuntimeError>)
        requires
            env_wf(old(env)@),
            scope < old(env)@.len(),
        ensures
            keeps(old(env)@, final(env)@),
            agrees(run_body(values_view(body@), old(env)@, scope as int, fuel as nat), r, final(env)@),
        decreases fuel, 1nat, 0nat,
    {
        let ghost es = values_view(body@);
        let ghost env0 = env@;
        proof { lemma_values_view(body@); }
        let mut last = Value::Void;
        let mut i: usize = 0;
        while i < body.len()
            invariant
                i <= body.len(),
                es == values_view(body@),
                es.len() == body@.len(),
                forall|k: int| 0 <= k < body@.len() ==> #[trigger] es[k] == value_view(body@[k]),
                scope < env0.len(),
                env0 == old(env)@,
                keeps(env0, env@),
                match run_body(es.subrange(0, i as int), env0, scope as int, fuel as nat) {
                    Some((Ok(v), e)) => v == value_view(last) && e == env@,
                    Some((Err(_), _)) => false,
                    None => true,
                },
            decreases body.len() - i,
        {
            let ghost sub = es.subrange(0, i + 1);
            proof {
                assert(sub.drop_last() =~= es.subrange(0, i as int));
                assert(sub.last() == value_view(body@[i as int]));
            }
            match self.eval_value(&body[i], env, scope, fuel) {
                Ok(v) => {
                    last = v;
                },
                Err(e) => {
                    proof { lemma_run_body_sticks(es, env0, scope as int, fuel as nat, i + 1); }
                    return Err(e);
                },
            }
            i = i + 1;
        }
        proof { assert(es.subrange(0, i as int) =~= es); }
        Ok(last)
    }

    /// Binds `params[i]` to `vals[i]` in scope `sc`, for each `i` that both
    /// have.
    fn bind_params(env: &mut Environment, sc: usize, params: &Vec<String>, vals: &Vec<Value>)
        requires
            env_wf(old(env)@),
            sc < old(env)@.len(),
        ensures
            env_wf(final(env)@),
            final(env)@.len() == old(env)@.len(),
            final(env)@ == bind(old(env)@, sc as int, strings_view(params@), values_view(vals@),
                min(params@.len() as nat, vals@.len() as nat)),
    {
        let ghost env0 = env@;
        proof { lemma_values_view(vals@); }
        let n = if params.len() <= vals.len() { params.len() } else { vals.len() };
        let mut i: usize = 0;
        while i < n
            invariant
                i <= n,
                n == min(params@.len() as nat, vals@.len() as nat),
                sc < env@.len(),
                env_wf(env@),
                values_view(vals@).len() == vals@.len(),
                forall|k: int| 0 <= k < vals@.len() ==> #[trigger] values_view(vals@)[k] == value_view(vals@[k]),
                env@ == bind(env0, sc as int, strings_view(params@), values_view(vals@), i as nat),
                env@.len() == env0.len(),
            decreases n - i,
        {
            env.set(sc, params[i].as_str(), vals[i].copy());
            i = i + 1;
        }
        proof { lemma_bind_len(env0, sc as int, strings_view(params@), values_view(vals@), n as nat); }
    }

    /// Applies a closure to evaluated arguments, in a new scope under the
    /// closure's defining scope.
    fn apply_closure(&self, closure: &Closure, vals: &Vec<Value>, env: &mut Environment, fuel: u64) -> (r: Result<Value, RuntimeError>)
        requires
            env_wf(old(env)@),
        ensures
            keeps(old(env)@, final(env)@),
            agrees(apply_closure(closure@, values_view(vals@), old(env)@, fuel as nat), r, final(env)@),
        decreases fuel, 2nat, 0nat,
    {
        proof { lemma_values_view(vals@); }
        if closure.params.len() != vals.len() {
            return Err(RuntimeError::InvalidArity { expected: closure.params.len(), founded: vals.len() });
        }
        if !env.resolves(closure.environment) {
            return Err(RuntimeError::InvalidClosure);
        }
        if env.len() == usize::MAX {
            return Err(RuntimeError::StepLimitExceeded);
        }
        let sc = env.extend(closure.environment);
        Self::bind_params(env, sc, &closure.params, vals);
        let r = self.run_body(&closure.body, env, sc, fuel);
        release_frames(env, sc, r)
    }

    /// Calls a closure on the argument expressions `l[from..]`, evaluated in
    /// the caller's scope.
    fn eval_closure(&self, closure: &Closure, l: &Vec<Value>, from: usize, env: &mut Environment, scope: usize, fuel: u64) -> (r: Result<Value, RuntimeError>)
        requires
            env_wf(old(env)@),
            scope < old(env)@.len(),
            from <= l.len(),
        ensures
            keeps(old(env)@, final(env)@),
            agrees(call_closure(closure@, values_view(l@).subrange(from as int, l@.len() as int), old(env)@, scope as int, fuel as nat), r, final(env)@),
        decreases fuel, 3nat, 0nat,
    {
        proof { lemma_values_view(l@); }
        if closure.params.len() != l.len() - from {
            return Err(RuntimeError::InvalidArity { expected: closure.params.len(), founded: l.len() - from });
        }
        if !env.resolves(closure.environment) {
            return Err(RuntimeError::InvalidClosure);
        }
        match self.eval_args(l, from, env, scope, fuel) {
            Ok(vals) => self.apply_closure(closure, &vals, env, fuel),
            Err(e) => Err(e),
        }
    }

    /// Runs the loop of a tail call in its frame `sc`, for at most `fuel`
    /// turns.
    fn run_tail_loop(&self, tail_call: &TailCall, env: &mut Environment, sc: usize, fuel: u64) -> (r: Result<Value, RuntimeError>)
        requires
            env_wf(old(env)@),
            sc < old(env)@.len(),
        ensures
            keeps(old(env)@, final(env)@),
            agrees(run_loop(tail_call_view(*tail_call), old(env)@, sc as int, fuel as nat, fuel as nat), r, final(env)@),
        decreases fuel, 2nat, 0nat,
    {
        let ghost t = tail_call_view(*tail_call);
        let ghost goal = run_loop(t, env@, sc as int, fuel as nat, fuel as nat);
        let ghost env0 = env@;
        let mut budget = fuel;
        proof { lemma_values_view(tail_call.updates@); }
        loop
            invariant
                env_wf(env@),
                sc < env@.len(),
                keeps(env0, env@),
                env0 == old(env)@,
                goal == run_loop(t, env0, sc as int, fuel as nat, fuel as nat),
                t == tail_call_view(*tail_call),
                goal is None || goal == run_loop(t, env@, sc as int, fuel as nat, budget as nat),
            decreases budget,
        {
            let ghost cur = env@;
            let ghost cur_budget = budget as nat;
            if budget == 0 {
                return Err(RuntimeError::StepLimitExceeded);
            }
            proof {
                lemma_values_view(tail_call.updates@);
                assert(values_view(tail_call.updates@).subrange(0, tail_call.updates@.len() as int) =~= t.updates);
                assert(t.closure == closure_view(tail_call.closure));
                assert(closure_view(tail_call.closure).params == strings_view(tail_call.closure.params@));
                assert(closure_view(tail_call.closure).body == values_view(tail_call.closure.body@));
                assert(*t.break_condition == value_view(*tail_call.break_condition));
                assert(*t.return_expr == value_view(*tail_call.return_expr));
            }
            let vals = match self.eval_args(&tail_call.updates, 0, env, sc, fuel) {
                Ok(vals) => vals,
                Err(e) => {
                    return Err(e);
                },
            };
            let ghost e1 = env@;
            proof { lemma_values_view(vals@); }
            Self::bind_params(env, sc, &tail_call.closure.params, &vals);
            let ghost e2 = env@;
            assert(e2 == bind(e1, sc as int, t.closure.params, values_view(vals@), min(t.closure.params.len(), values_view(vals@).len())));
            match self.run_body(&tail_call.closure.body, env, sc, fuel) {
                Ok(_) => {},
                Err(e) => {
                    return Err(e);
                },
            }
            let stop = match self.eval_value(&tail_call.break_condition, env, sc, fuel) {
                Ok(b) => b,
                Err(e) => {
                    return Err(e);
                },
            };
            match stop {
                Value::Bool(false) => {},
                _ => {
                    assert(value_view(stop) != Val::Bool(false));
                    return self.eval_value(&tail_call.return_expr, env, sc, fuel);
                },
            }
            budget = budget - 1;
        }
    }

    /// Calls the loop form of a self-recursive closure: binds the arguments
    /// in a new frame, runs the residual body once, then loops.
    fn eval_tail_call(&self, tail_call: &TailCall, l: &Vec<Value>, from: usize, env: &mut Environment, scope: usize, fuel: u64) -> (r: Result<Value, RuntimeError>)
        requires
            env_wf(old(env)@),
            scope < old(env)@.len(),
            from <= l.len(),
        ensures
            keeps(old(env)@, final(env)@),
            agrees(call_tail(tail_call_view(*tail_call), values_view(l@).subrange(from as int, l@.len() as int), old(env)@, scope as int, fuel as nat), r, final(env)@),
        decreases fuel, 3nat, 0nat,
    {
        proof { lemma_values_view(l@); }
        let ghost t = tail_call_view(*tail_call);
        proof {
            assert(t.closure == closure_view(tail_call.closure));
        }
        let closure = &tail_call.closure;
        if closure.params.len() != l.len() - from {
            return Err(RuntimeError::InvalidArity { expected: closure.params.len(), founded: l.len() - from });
        }
        if !env.resolves(closure.environment) {
            return Err(RuntimeError::InvalidClosure);
        }
        let vals = match self.eval_args(l, from, env, scope, fuel) {
            Ok(vals) => vals,
            Err(e) => {
                return Err(e);
            },
        };
        if env.len() == usize::MAX {
            return Err(RuntimeError::StepLimitExceeded);
        }
        let sc = env.extend(closure.environment);
        proof { lemma_values_view(vals@); }
        Self::bind_params(env, sc, &closure.params, &vals);
        let r = match self.run_body(&closure.body, env, sc, fuel) {
            Ok(_) => self.run_tail_loop(tail_call, env, sc, fuel),
            Err(e) => Err(e),
        };
        release_frames(env, sc, r)
    }

    /// `(define name expr)` or `(define (name param...) body...)`, with the
    /// operands at `l[1..]`.
    fn eval_keyword_define(&self, l: &Vec<Value>, env: &mut Environment, scope: usize, fuel: u64) -> (r: Result<Value, RuntimeError>)
        requires
            env_wf(old(env)@),
            scope < old(env)@.len(),
            l.len() >= 1,
        ensures
            keeps(old(env)@, final(env)@),
            agrees(eval_define(values_view(l@).drop_first(), old(env)@, scope as int, fuel as nat), r, final(env)@),
        decreases fuel, 2nat, 0nat,
    {
        proof { lemma_values_view(l@); }
        if l.len() == 1 {
            return Err(RuntimeError::EmptyList);
        }
        match &l[1] {
            Value::Symbol(name) => {
                if l.len() != 3 {
                    return Err(RuntimeError::TypeError { expected: owned_name("symbol or list"), founded: l[1].copy() });
                }
                let v = match self.eval_value(&l[2], env, scope, fuel) {
                    Ok(v) => v,
                    Err(e) => {
                        return Err(e);
                    },
                };
                env.set(scope, name.as_str(), v);
                Ok(Value::Void)
            },
            Value::List(info) => {
                proof { lemma_values_view(info@); }
                if info.len() == 0 {
                    return Err(RuntimeError::EmptyList);
                }
                match &info[0] {
                    Value::Symbol(name) => {
                        proof {
                            assert(values_view(info@).subrange(1, info@.len() as int) =~= values_view(info@).drop_first());
                        }
                        let params = match collect_symbols(info, 1) {
                            Ok(p) => p,
                            Err(e) => {
                                return Err(e);
                            },
                        };
                        if l.len() == 2 {
                            return Err(RuntimeError::EmptyList);
                        }
                        let body = copy_values_from(l, 2);
                        proof {
                            assert(values_view(l@).subrange(2, l@.len() as int) =~= values_view(l@).drop_first().drop_first());
                        }
                        let closure = Closure::new(Some(copy_string(name)), params, body, scope);
                        let v = optimize_closure(closure);
                        env.set(scope, name.as_str(), v);
                        Ok(Value::Void)
                    },
                    other => Err(RuntimeError::TypeError { expected: owned_name("symbol"), founded: other.copy() }),
                }
            },
            other => Err(RuntimeError::TypeError { expected: owned_name("symbol or list"), founded: other.copy() }),
        }
    }

    /// `(lambda (param...) body...)` or `(lambda param body...)`, with the
    /// operands at `l[1..]`: an anonymous closure over `scope`.
    fn eval_keyword_lambda(l: &Vec<Value>, env: &Environment, scope: usize) -> (r: Result<Value, RuntimeError>)
        requires
            l.len() >= 1,
        ensures
            agrees(eval_lambda(values_view(l@).drop_first(), env@, scope as int), r, env@),
    {
        proof { lemma_values_view(l@); }
        if l.len() == 1 {
            return Err(RuntimeError::EmptyList);
        }
        proof {
            assert(values_view(l@).subrange(2, l@.len() as int) =~= values_view(l@).drop_first().drop_first());
        }
        match &l[1] {
            Value::List(first) => {
                proof {
                    lemma_values_view(first@);
                    assert(values_view(first@).subrange(0, first@.len() as int) =~= values_view(first@));
                }
                let params = match collect_symbols(first, 0) {
                    Ok(p) => p,
                    Err(e) => {
                        return Err(e);
                    },
                };
                let body = copy_values_from(l, 2);
                let c = Closure::new(None, params, body, scope);
                assert(value_view(Value::Closure(c)) == Val::Closure(closure_view(c)));
                Ok(Value::Closure(c))
            },
            Value::Symbol(first) => {
                let mut params: Vec<String> = Vec::new();
                params.push(copy_string(first));
                proof {
                    assert(strings_view(params@) =~= seq![first@]);
                }
                let body = copy_values_from(l, 2);
                let c = Closure::new(None, params, body, scope);
                assert(value_view(Value::Closure(c)) == Val::Closure(closure_view(c)));
                Ok(Value::Closure(c))
            },
            other => Err(RuntimeError::TypeError { expected: owned_name("symbol or list"), founded: other.copy() }),
        }
    }

    /// `(if c a b)`, with the operands at `l[1..]`.
    fn eval_keyword_if(&self, l: &Vec<Value>, env: &mut Environment, scope: usize, fuel: u64) -> (r: Result<Value, RuntimeError>)
        requires
            env_wf(old(env)@),
            scope < old(env)@.len(),
            l.len() >= 1,
        ensures
            keeps(old(env)@, final(env)@),
            agrees(eval_if(values_view(l@).drop_first(), old(env)@, scope as int, fuel as nat), r, final(env)@),
        decreases fuel, 2nat, 0nat,
    {
        proof { lemma_values_view(l@); }
        if l.len() != 4 {
            return Err(RuntimeError::InvalidArity { expected: 3, founded: l.len() - 1 });
        }
        let c = match self.eval_value(&l[1], env, scope, fuel) {
            Ok(c) => c,
            Err(e) => {
                return Err(e);
            },
        };
        match c {
            Value::Bool(false) => self.eval_value(&l[3], env, scope, fuel),
            _ => self.eval_value(&l[2], env, scope, fuel),
        }
    }

    /// Evaluates a list: a special form, or a call of what its head is.
    fn eval_list(&self, l: &Vec<Value>, env: &mut Environment, scope: usize, fuel: u64) -> (r: Result<Value, RuntimeError>)
        requires
            env_wf(old(env)@),
            scope < old(env)@.len(),
        ensures
            keeps(old(env)@, final(env)@),
            agrees(eval_list(values_view(l@), old(env)@, scope as int, fuel as nat), r, final(env)@),
        decreases fuel, 4nat, 0nat,
    {
        proof { lemma_values_view(l@); }
        if l.len() == 0 {
            return Err(RuntimeError::EmptyList);
        }
        proof {
            assert(values_view(l@).subrange(1, l@.len() as int) =~= values_view(l@).drop_first());
        }
        match &l[0] {
            Value::Closure(closure) => {
                let vals = match self.eval_args(l, 1, env, scope, fuel) {
                    Ok(vals) => vals,
                    Err(e) => {
                        return Err(e);
                    },
                };
                self.apply_closure(closure, &vals, env, fuel)
            },
            Value::Symbol(_) | Value::List(_) => {
                let head = match self.eval_value(&l[0], env, scope, fuel) {
                    Ok(h) => h,
                    Err(e) => {
                        return Err(e);
                    },
                };
                match head {
                    Value::Closure(closure) => self.eval_closure(&closure, l, 1, env, scope, fuel),
                    Value::TailCall(tail_call) => self.eval_tail_call(&tail_call, l, 1, env, scope, fuel),
                    Value::InternalFunction(internal_fn) => self.eval_internal_fn(internal_fn.function, l, env, scope, fuel),
                    other => Err(RuntimeError::NonCallableValue(other)),
                }
            },
            Value::Keyword(Keyword::Define) => self.eval_keyword_define(l, env, scope, fuel),
            Value::Keyword(Keyword::Lambda) => Self::eval_keyword_lambda(l, env, scope),
            Value::Keyword(Keyword::If) => self.eval_keyword_if(l, env, scope, fuel),
            other => Err(RuntimeError::NonCallableValue(other.copy())),
        }
    }

    /// Calls a built-in on the arguments `l[1..]`, evaluated in order.
    fn eval_internal_fn(&self, b: Builtin, l: &Vec<Value>, env: &mut Environment, scope: usize, fuel: u64) -> (r: Result<Value, RuntimeError>)
        requires
            env_wf(old(env)@),
            scope < old(env)@.len(),
            l.len() >= 1,
        ensures
            keeps(old(env)@, final(env)@),
            match eval_args(values_view(l@).drop_first(), old(env)@, scope as int, fuel as nat) {
                None => true,
                Some((Err(e), e1)) => result_view(r) == Err::<Val, Fault>(e) && final(env)@ == e1,
                Some((Ok(vals), e1)) => final(env)@ == e1 && match builtin_outcome(b, vals) {
                    None => true,
                    Some(o) => result_view(r) == o,
                },
            },
        decreases fuel, 2nat, 0nat,
    {
        proof {
            lemma_values_view(l@);
            assert(values_view(l@).subrange(1, l@.len() as int) =~= values_view(l@).drop_first());
        }
        match self.eval_args(l, 1, env, scope, fuel) {
            Ok(vals) => call_builtin(b, &vals, &self.floats),
            Err(e) => Err(e),
        }
    }
}

} // verus!

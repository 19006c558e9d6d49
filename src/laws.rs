use crate::environment::{env_set, env_wf, last_index, lemma_last_index_bounds, lemma_lookup_frame, lookup, scope_get, ScopeVal};
use crate::error::Fault;
use crate::interpreter::seeded;
use crate::math::{arith, arith_tally, fold, numeric_is_zero, start, step, Tally};
use crate::optimizer::{negation, optimized, self_call_args};
use crate::semantics::{
    apply_closure, bind, builtin_outcome, call_closure, call_tail, eval, eval_args, eval_define, eval_if, eval_list,
    frame, release, run_body, run_loop, symbols, ArgsOutcome, Outcome,
};
use crate::integer::trunc_div;
use crate::value::{Builtin, ClosureVal, Keyword, Num, TailCallVal, Val};
use vstd::prelude::*;

verus! {

/// Numbers written as literal expressions.
pub open spec fn numerals(ns: Seq<Num>) -> Seq<Val> {
    ns.map_values(|n: Num| Val::Numeric(n))
}

/// Integers written as literal expressions.
pub open spec fn integers(xs: Seq<int>) -> Seq<Val> {
    xs.map_values(|x: int| Val::Numeric(Num::Int(x)))
}

/// The exact sum of integers.
pub open spec fn sum(xs: Seq<int>) -> int
    decreases xs.len(),
{
    if xs.len() == 0 {
        0
    } else {
        sum(xs.drop_last()) + xs.last()
    }
}

/// The outcome that a built-in's tally stands for.
pub open spec fn tally_outcome(t: Tally, env: Seq<ScopeVal>) -> Outcome {
    match t {
        Tally::Int(i) => Some((Ok(Val::Numeric(Num::Int(i))), env)),
        Tally::Float => None,
        Tally::Fault(e) => Some((Err(e), env)),
    }
}

proof fn lemma_eval_numerals(ns: Seq<Num>, env: Seq<ScopeVal>, s: int, fuel: nat)
    requires
        fuel >= 1,
    ensures
        eval_args(numerals(ns), env, s, fuel) == Some((Ok::<Seq<Val>, Fault>(numerals(ns)), env)),
    decreases ns.len(),
{
    if ns.len() == 0 {
        assert(numerals(ns) =~= Seq::<Val>::empty());
    } else {
        lemma_eval_numerals(ns.drop_last(), env, s, fuel);
        assert(numerals(ns).drop_last() =~= numerals(ns.drop_last()));
        assert(numerals(ns).last() == Val::Numeric(ns.last()));
        assert(eval(Val::Numeric(ns.last()), env, s, fuel) == Some((Ok::<Val, Fault>(Val::Numeric(ns.last())), env)));
        assert(numerals(ns.drop_last()).push(Val::Numeric(ns.last())) =~= numerals(ns));
    }
}

/// Calling the built-in bound to `op_name` on literal numbers.
proof fn lemma_call_on_numerals(op_name: Seq<char>, b: Builtin, ns: Seq<Num>, env: Seq<ScopeVal>, fuel: nat)
    requires
        fuel >= 2,
        lookup(env, 0, op_name) == Some(Val::InternalFunction(op_name, b)),
    ensures
        eval(Val::List(seq![Val::Symbol(op_name)] + numerals(ns)), env, 0, fuel) == match builtin_outcome(b, numerals(ns)) {
            None => None,
            Some(r) => Some((r, env)),
        },
{
    let l = seq![Val::Symbol(op_name)] + numerals(ns);
    assert(l.drop_first() =~= numerals(ns));
    lemma_eval_numerals(ns, env, 0, (fuel - 1) as nat);
    assert(eval(l[0], env, 0, (fuel - 1) as nat) == Some((Ok::<Val, Fault>(Val::InternalFunction(op_name, b)), env)));
}

/// `(+ n...)` is the left fold of addition from 0, and `(* n...)` the left
/// fold of multiplication from 1, in the top-level scope of a fresh
/// interpreter.
pub proof fn law_sum_and_product_are_folds(ns: Seq<Num>, env: Seq<ScopeVal>, fuel: nat)
    requires
        seeded(env),
        fuel >= 2,
    ensures
        eval(Val::List(seq![Val::Symbol("+"@)] + numerals(ns)), env, 0, fuel)
            == tally_outcome(fold(Builtin::Add, Tally::Int(0), numerals(ns)), env),
        eval(Val::List(seq![Val::Symbol("*"@)] + numerals(ns)), env, 0, fuel)
            == tally_outcome(fold(Builtin::Mul, Tally::Int(1), numerals(ns)), env),
{
    lemma_call_on_numerals("+"@, Builtin::Add, ns, env, fuel);
    lemma_call_on_numerals("*"@, Builtin::Mul, ns, env, fuel);
}

/// Integer addition loses nothing: the fold of `+` over integers of any size
/// is their exact sum.
pub proof fn law_integer_sum_exact(xs: Seq<int>)
    ensures
        fold(Builtin::Add, Tally::Int(0), integers(xs)) == Tally::Int(sum(xs)),
    decreases xs.len(),
{
    if xs.len() > 0 {
        law_integer_sum_exact(xs.drop_last());
        assert(integers(xs).drop_last() =~= integers(xs.drop_last()));
    }
}

/// One integer step is exact: the mathematical result (for division,
/// truncated toward zero), or a failure only when dividing by zero.
pub proof fn law_integer_step_exact(op: Builtin, a: int, b: int)
    requires
        op != Builtin::NumericEqual,
        !(op == Builtin::Div && b == 0),
    ensures
        arith(op, Tally::Int(a), Num::Int(b)) == Tally::Int(match op {
            Builtin::Add => a + b,
            Builtin::Sub => a - b,
            Builtin::Mul => a * b,
            _ => trunc_div(a, b),
        }),
{
}

/// A float operand makes the step's result a float: mixed and float
/// arithmetic never yield an integer.
pub proof fn law_float_step(op: Builtin, acc: Tally, n: Num)
    requires
        acc is Float || n is Float,
    ensures
        arith(op, acc, n) is Float || arith(op, acc, n) is Fault,
        !(op == Builtin::Div && numeric_is_zero(n)) && !(acc is Fault) ==> arith(op, acc, n) is Float,
{
}

/// Once a float takes part in a fold, its result is a float (or a failure),
/// never an integer.
pub proof fn law_float_contaminates(op: Builtin, init: Tally, ns: Seq<Num>, k: int)
    requires
        0 <= k < ns.len(),
        ns[k] is Float,
    ensures
        !(fold(op, init, numerals(ns)) is Int),
    decreases ns.len(),
{
    assert(numerals(ns).drop_last() =~= numerals(ns.drop_last()));
    if k < ns.len() - 1 {
        law_float_contaminates(op, init, ns.drop_last(), k);
    }
}

/// `(- n)` is `(- 0 n)`.
pub proof fn law_negation(n: Num)
    ensures
        arith_tally(Builtin::Sub, seq![Val::Numeric(n)])
            == arith_tally(Builtin::Sub, seq![Val::Numeric(Num::Int(0)), Val::Numeric(n)]),
        arith_tally(Builtin::Sub, seq![Val::Numeric(n)]) == arith(Builtin::Sub, Tally::Int(0), n),
{
    let two = seq![Val::Numeric(Num::Int(0)), Val::Numeric(n)];
    let one = seq![Val::Numeric(n)];
    assert(two.drop_first() =~= one);
    assert(one.drop_last() =~= Seq::<Val>::empty());
    assert(fold(Builtin::Sub, Tally::Int(0), one.drop_last()) == Tally::Int(0));
    assert(one.last() == Val::Numeric(n));
    assert(fold(Builtin::Sub, Tally::Int(0), one) == step(Builtin::Sub, Tally::Int(0), Val::Numeric(n)));
    assert(start(two[0]) == Tally::Int(0));
}

/// `(/ n)` is the float `1 / n`, and fails on a zero `n`.
pub proof fn law_reciprocal(n: Num)
    ensures
        arith_tally(Builtin::Div, seq![Val::Numeric(n)]) == if numeric_is_zero(n) {
            Tally::Fault(Fault::DivideByZero)
        } else {
            Tally::Float
        },
{
}

/// Dividing literal numbers can fail only by a zero divisor.
proof fn lemma_fold_div_faults(init: Tally, ns: Seq<Num>)
    requires
        init is Int || init is Float || init == Tally::Fault(Fault::DivideByZero),
    ensures
        ({
            let t = fold(Builtin::Div, init, numerals(ns));
            t is Int || t is Float || t == Tally::Fault(Fault::DivideByZero)
        }),
    decreases ns.len(),
{
    if ns.len() > 0 {
        assert(numerals(ns).drop_last() =~= numerals(ns.drop_last()));
        lemma_fold_div_faults(init, ns.drop_last());
    }
}

proof fn lemma_fold_div_zero(init: Tally, ns: Seq<Num>, k: int)
    requires
        init is Int || init is Float || init == Tally::Fault(Fault::DivideByZero),
        0 <= k < ns.len(),
        numeric_is_zero(ns[k]),
    ensures
        fold(Builtin::Div, init, numerals(ns)) == Tally::Fault(Fault::DivideByZero),
    decreases ns.len(),
{
    assert(numerals(ns).drop_last() =~= numerals(ns.drop_last()));
    if k < ns.len() - 1 {
        lemma_fold_div_zero(init, ns.drop_last(), k);
    } else {
        lemma_fold_div_faults(init, ns.drop_last());
    }
}

/// A zero divisor in any position makes `/` fail with `DivideByZero`, never
/// produce a number.
pub proof fn law_divide_by_zero(ns: Seq<Num>, k: int)
    requires
        1 <= k < ns.len(),
        numeric_is_zero(ns[k]),
    ensures
        arith_tally(Builtin::Div, numerals(ns)) == Tally::Fault(Fault::DivideByZero),
{
    let args = numerals(ns);
    assert(args.drop_first() =~= numerals(ns.drop_first()));
    assert(args[0] == Val::Numeric(ns[0]));
    lemma_fold_div_zero(start(args[0]), ns.drop_first(), k - 1);
}

/// A named closure whose body ends in a direct call of itself becomes a loop
/// that never stops on its own: its break condition is `#f`.
pub proof fn law_direct_self_call_loops(c: ClosureVal, f: Seq<char>, l: Seq<Val>)
    requires
        c.name == Some(f),
        c.body.len() >= 1,
        c.body.last() == Val::List(l),
        l.len() >= 1,
        l[0] == Val::Symbol(f),
    ensures
        optimized(c) == Val::TailCall(TailCallVal {
            closure: ClosureVal { body: c.body.drop_last(), ..c },
            updates: l.drop_first(),
            break_condition: Box::new(Val::Bool(false)),
            return_expr: Box::new(Val::Void),
        }),
{
}

/// Rebinding a name to the value it already has changes nothing.
proof fn lemma_set_same(env: Seq<ScopeVal>, sc: int, x: Seq<char>)
    requires
        0 <= sc < env.len(),
        scope_get(env[sc].vars, x) is Some,
    ensures
        env_set(env, sc, x, scope_get(env[sc].vars, x)->0) == env,
{
    let vars = env[sc].vars;
    lemma_last_index_bounds(vars, x);
    let i = last_index(vars, x);
    assert(vars.update(i, (x, vars[i].1)) =~= vars);
    assert(env_set(env, sc, x, scope_get(vars, x)->0) =~= env);
}

/// The loop form of `(define (f x) (f x))` never returns a value: each turn
/// rebinds `x` to itself in the same frame, and the turns go on until the
/// step budget is spent.
pub proof fn law_direct_self_call_spins(t: TailCallVal, x: Seq<char>, env: Seq<ScopeVal>, sc: int, fuel: nat, budget: nat)
    requires
        t.closure.params == seq![x],
        t.closure.body.len() == 0,
        t.updates == seq![Val::Symbol(x)],
        *t.break_condition == Val::Bool(false),
        0 <= sc < env.len(),
        scope_get(env[sc].vars, x) is Some,
        fuel >= 1,
    ensures
        run_loop(t, env, sc, fuel, budget) == Some((Err::<Val, Fault>(Fault::StepLimitExceeded), env)),
    decreases budget,
{
    if budget > 0 {
        let v = scope_get(env[sc].vars, x)->0;
        assert(lookup(env, sc, x) == Some(v));
        assert(eval(Val::Symbol(x), env, sc, fuel) == Some((Ok::<Val, Fault>(v), env)));
        assert(t.updates.drop_last() =~= Seq::<Val>::empty());
        assert(eval_args(Seq::<Val>::empty(), env, sc, fuel) == Some((Ok::<Seq<Val>, Fault>(Seq::<Val>::empty()), env)));
        assert(Seq::<Val>::empty().push(v) =~= seq![v]);
        assert(eval_args(t.updates, env, sc, fuel) == Some((Ok::<Seq<Val>, Fault>(seq![v]), env)));
        lemma_set_same(env, sc, x);
        assert(bind(env, sc, t.closure.params, seq![v], 0) == env);
        assert(bind(env, sc, t.closure.params, seq![v], 1) == env);
        assert(run_body(t.closure.body, env, sc, fuel) == Some((Ok::<Val, Fault>(Val::Void), env)));
        assert(eval(*t.break_condition, env, sc, fuel) == Some((Ok::<Val, Fault>(Val::Bool(false)), env)));
        law_direct_self_call_spins(t, x, env, sc, fuel, (budget - 1) as nat);
    }
}

/// A named closure whose body ends in `(if c a (f args...))`, with `a` no
/// self-call, becomes a loop that updates with `args`, stops once `c` holds
/// and then returns `a`.
pub proof fn law_conditional_self_call_loops(c: ClosureVal, f: Seq<char>, cond: Val, a: Val, args: Seq<Val>)
    requires
        c.name == Some(f),
        c.body.len() >= 1,
        c.body.last() == Val::List(seq![Val::Keyword(Keyword::If), cond, a, Val::List(seq![Val::Symbol(f)] + args)]),
        self_call_args(a, f) is None,
    ensures
        optimized(c) == Val::TailCall(TailCallVal {
            closure: ClosureVal { body: c.body.drop_last(), ..c },
            updates: args,
            break_condition: Box::new(cond),
            return_expr: Box::new(a),
        }),
{
    let call = seq![Val::Symbol(f)] + args;
    assert(call.drop_first() =~= args);
    let l = seq![Val::Keyword(Keyword::If), cond, a, Val::List(call)];
    assert(l[0] != Val::Symbol(f));
}

/// A named closure whose body ends in `(if c (f args...) b)` becomes a loop
/// that updates with `args` while `c` holds, stops once it does not, and
/// then returns `b`.
pub proof fn law_then_branch_self_call_loops(c: ClosureVal, f: Seq<char>, cond: Val, b: Val, args: Seq<Val>)
    requires
        c.name == Some(f),
        c.body.len() >= 1,
        c.body.last() == Val::List(seq![Val::Keyword(Keyword::If), cond, Val::List(seq![Val::Symbol(f)] + args), b]),
    ensures
        optimized(c) == Val::TailCall(TailCallVal {
            closure: ClosureVal { body: c.body.drop_last(), ..c },
            updates: args,
            break_condition: Box::new(negation(cond)),
            return_expr: Box::new(b),
        }),
{
    let call = seq![Val::Symbol(f)] + args;
    assert(call.drop_first() =~= args);
    let l = seq![Val::Keyword(Keyword::If), cond, Val::List(call), b];
    assert(l[0] != Val::Symbol(f));
}

proof fn lemma_symbols_of_names(names: Seq<Seq<char>>)
    ensures
        symbols(names.map_values(|n: Seq<char>| Val::Symbol(n))) == Ok::<Seq<Seq<char>>, Fault>(names),
    decreases names.len(),
{
    let syms = names.map_values(|n: Seq<char>| Val::Symbol(n));
    if names.len() == 0 {
        assert(syms =~= Seq::<Val>::empty());
        assert(names =~= Seq::<Seq<char>>::empty());
    } else {
        lemma_symbols_of_names(names.drop_last());
        assert(syms.drop_last() =~= names.drop_last().map_values(|n: Seq<char>| Val::Symbol(n)));
        assert(names.drop_last().push(names.last()) =~= names);
    }
}

/// `(lambda (p...) body...)` evaluates to an anonymous closure whose
/// parameters and body are the literal ones, over the current scope; having
/// no name, it is never rewritten into a loop.
pub proof fn law_lambda_closure(names: Seq<Seq<char>>, body: Seq<Val>, env: Seq<ScopeVal>, s: int, fuel: nat)
    requires
        fuel >= 1,
        0 <= s,
        s <= usize::MAX,
    ensures
        ({
            let params = Val::List(names.map_values(|n: Seq<char>| Val::Symbol(n)));
            let c = ClosureVal { name: None, params: names, body, environment: s as usize };
            &&& eval(Val::List(seq![Val::Keyword(Keyword::Lambda), params] + body), env, s, fuel)
                == Some((Ok::<Val, Fault>(Val::Closure(c)), env))
            &&& optimized(c) == Val::Closure(c)
        }),
{
    let params = Val::List(names.map_values(|n: Seq<char>| Val::Symbol(n)));
    let l = seq![Val::Keyword(Keyword::Lambda), params] + body;
    assert(l.drop_first() =~= seq![params] + body);
    assert((seq![params] + body).drop_first() =~= body);
    lemma_symbols_of_names(names);
}

proof fn lemma_bind_frame(env: Seq<ScopeVal>, sc: int, ps: Seq<Seq<char>>, vs: Seq<Val>, n: nat, i: int)
    requires
        0 <= sc < env.len(),
        0 <= i < env.len(),
        i != sc,
    ensures
        bind(env, sc, ps, vs, n).len() == env.len(),
        bind(env, sc, ps, vs, n)[i] == env[i],
    decreases n,
{
    if n > 0 {
        lemma_bind_frame(env, sc, ps, vs, (n - 1) as nat, i);
    }
}

/// Binding in a scope leaves every earlier scope's view unchanged: in
/// particular, binding a name in a call's scope does not alter the binding
/// of that name seen from any enclosing scope.
pub proof fn law_binding_does_not_leak_outward(env: Seq<ScopeVal>, c: int, p: int, name: Seq<char>, v: Val, m: Seq<char>)
    requires
        env_wf(env),
        0 <= p < c < env.len(),
    ensures
        lookup(env_set(env, c, name, v), p, m) == lookup(env, p, m),
{
    lemma_lookup_frame(env_set(env, c, name, v), env, p, m);
}

/// A call's frame binds its parameters in a new scope: every scope that
/// existed before the call sees exactly what it saw before.
pub proof fn law_call_frame_shadows(c: ClosureVal, vals: Seq<Val>, env: Seq<ScopeVal>, p: int, m: Seq<char>)
    requires
        env_wf(env),
        0 <= p < env.len(),
        c.environment < env.len(),
    ensures
        lookup(frame(c, vals, env), p, m) == lookup(env, p, m),
{
    let ext = crate::environment::env_extend(env, c.environment as int);
    let n = crate::semantics::min(c.params.len(), vals.len());
    assert forall|j: int| 0 <= j <= p implies frame(c, vals, env)[j] == env[j] by {
        lemma_bind_frame(ext, env.len() as int, c.params, vals, n, j);
    }
    lemma_bind_frame(ext, env.len() as int, c.params, vals, n, 0);
    lemma_lookup_frame(frame(c, vals, env), env, p, m);
}

/// A literal that evaluates to itself.
pub open spec fn is_literal(v: Val) -> bool {
    v is Numeric || v is Bool || v is String
}

/// `(if c a b)` with literal operands: `b` exactly when `c` is `#f`; every
/// other value, numeric zero included, selects `a`.
pub proof fn law_if_truthiness(c: Val, a: Val, b: Val, env: Seq<ScopeVal>, s: int, fuel: nat)
    requires
        fuel >= 2,
        is_literal(c),
        is_literal(a),
        is_literal(b),
    ensures
        eval(Val::List(seq![Val::Keyword(Keyword::If), c, a, b]), env, s, fuel)
            == Some((Ok::<Val, Fault>(if c == Val::Bool(false) { b } else { a }), env)),
{
    let l = seq![Val::Keyword(Keyword::If), c, a, b];
    let ops = seq![c, a, b];
    let f = (fuel - 1) as nat;
    assert(l.drop_first() =~= ops);
    assert(eval(c, env, s, f) == Some((Ok::<Val, Fault>(c), env)));
    assert(eval(a, env, s, f) == Some((Ok::<Val, Fault>(a), env)));
    assert(eval(b, env, s, f) == Some((Ok::<Val, Fault>(b), env)));
    assert(eval_if(ops, env, s, f) == Some((Ok::<Val, Fault>(if c == Val::Bool(false) { b } else { a }), env)));
    assert(eval_list(l, env, s, f) == eval_if(ops, env, s, f));
}

/// The environment after `o` keeps the scopes below `lo` as in `env` and
/// has at least `n` scopes.
pub open spec fn stable(o: Outcome, env: Seq<ScopeVal>, lo: int, n: int) -> bool {
    match o {
        None => true,
        Some((_, e)) => n <= e.len() && forall|j: int| 0 <= j < lo ==> #[trigger] e[j] == env[j],
    }
}

pub open spec fn args_stable(o: ArgsOutcome, env: Seq<ScopeVal>, lo: int, n: int) -> bool {
    match o {
        None => true,
        Some((_, e)) => n <= e.len() && forall|j: int| 0 <= j < lo ==> #[trigger] e[j] == env[j],
    }
}

proof fn lemma_bind_stable(env: Seq<ScopeVal>, sc: int, ps: Seq<Seq<char>>, vs: Seq<Val>, n: nat)
    requires
        0 <= sc < env.len(),
    ensures
        bind(env, sc, ps, vs, n).len() == env.len(),
        forall|j: int| 0 <= j < env.len() && j != sc ==> #[trigger] bind(env, sc, ps, vs, n)[j] == env[j],
{
    assert forall|j: int| 0 <= j < env.len() && j != sc implies #[trigger] bind(env, sc, ps, vs, n)[j] == env[j] by {
        lemma_bind_frame(env, sc, ps, vs, n, j);
    }
    lemma_bind_len_only(env, sc, ps, vs, n);
}

proof fn lemma_bind_len_only(env: Seq<ScopeVal>, sc: int, ps: Seq<Seq<char>>, vs: Seq<Val>, n: nat)
    requires
        0 <= sc < env.len(),
    ensures
        bind(env, sc, ps, vs, n).len() == env.len(),
    decreases n,
{
    if n > 0 {
        lemma_bind_len_only(env, sc, ps, vs, (n - 1) as nat);
    }
}

proof fn lemma_eval_stable(e: Val, env: Seq<ScopeVal>, s: int, fuel: nat)
    requires
        0 <= s < env.len(),
    ensures
        stable(eval(e, env, s, fuel), env, s, s + 1),
    decreases fuel, 0nat, 0nat,
{
    if fuel > 0 {
        if let Val::List(l) = e {
            lemma_list_stable(l, env, s, (fuel - 1) as nat);
        }
    }
}

proof fn lemma_args_stable(es: Seq<Val>, env: Seq<ScopeVal>, s: int, fuel: nat)
    requires
        0 <= s < env.len(),
    ensures
        args_stable(eval_args(es, env, s, fuel), env, s, s + 1),
    decreases fuel, 1nat, es.len(),
{
    if es.len() > 0 {
        lemma_args_stable(es.drop_last(), env, s, fuel);
        if let Some((Ok(_), env1)) = eval_args(es.drop_last(), env, s, fuel) {
            lemma_eval_stable(es.last(), env1, s, fuel);
        }
    }
}

proof fn lemma_body_stable(body: Seq<Val>, env: Seq<ScopeVal>, s: int, fuel: nat)
    requires
        0 <= s < env.len(),
    ensures
        stable(run_body(body, env, s, fuel), env, s, s + 1),
    decreases fuel, 1nat, body.len(),
{
    if body.len() > 0 {
        lemma_body_stable(body.drop_last(), env, s, fuel);
        if let Some((Ok(_), env1)) = run_body(body.drop_last(), env, s, fuel) {
            lemma_eval_stable(body.last(), env1, s, fuel);
        }
    }
}

proof fn lemma_release_stable(o: Outcome, env: Seq<ScopeVal>, n: int)
    requires
        0 <= n,
        stable(o, env, n, n + 1),
    ensures
        stable(release(o, n), env, n, n),
{
}

proof fn lemma_apply_stable(c: ClosureVal, vals: Seq<Val>, env: Seq<ScopeVal>, fuel: nat)
    ensures
        stable(apply_closure(c, vals, env, fuel), env, env.len() as int, env.len() as int),
    decreases fuel, 2nat, 0nat,
{
    if c.params.len() == vals.len() && c.environment < env.len() && env.len() < usize::MAX {
        let n = env.len() as int;
        let ext = crate::environment::env_extend(env, c.environment as int);
        let f = frame(c, vals, env);
        lemma_bind_stable(ext, n, c.params, vals, crate::semantics::min(c.params.len(), vals.len()));
        assert forall|j: int| 0 <= j < n implies #[trigger] f[j] == env[j] by {
            assert(ext[j] == env[j]);
        }
        lemma_body_stable(c.body, f, n, fuel);
        lemma_release_stable(run_body(c.body, f, n, fuel), env, n);
        match run_body(c.body, f, n, fuel) {
            Some((_, e)) => {
                assert forall|j: int| 0 <= j < n implies #[trigger] e[j] == env[j] by {
                    assert(e[j] == f[j]);
                }
            },
            None => {},
        }
    }
}

proof fn lemma_call_stable(c: ClosureVal, es: Seq<Val>, env: Seq<ScopeVal>, s: int, fuel: nat)
    requires
        0 <= s < env.len(),
    ensures
        stable(call_closure(c, es, env, s, fuel), env, s, s + 1),
    decreases fuel, 3nat, 0nat,
{
    if c.params.len() == es.len() && c.environment < env.len() {
        lemma_args_stable(es, env, s, fuel);
        if let Some((Ok(vals), env1)) = eval_args(es, env, s, fuel) {
            lemma_apply_stable(c, vals, env1, fuel);
        }
    }
}

proof fn lemma_loop_stable(t: TailCallVal, env: Seq<ScopeVal>, sc: int, fuel: nat, budget: nat)
    requires
        0 <= sc < env.len(),
    ensures
        stable(run_loop(t, env, sc, fuel, budget), env, sc, sc + 1),
    decreases fuel, 2nat, budget,
{
    if budget > 0 {
        lemma_args_stable(t.updates, env, sc, fuel);
        if let Some((Ok(vals), env1)) = eval_args(t.updates, env, sc, fuel) {
            let n = crate::semantics::min(t.closure.params.len(), vals.len());
            let env2 = bind(env1, sc, t.closure.params, vals, n);
            lemma_bind_stable(env1, sc, t.closure.params, vals, n);
            lemma_body_stable(t.closure.body, env2, sc, fuel);
            if let Some((Ok(_), env3)) = run_body(t.closure.body, env2, sc, fuel) {
                lemma_eval_stable(*t.break_condition, env3, sc, fuel);
                if let Some((Ok(b), env4)) = eval(*t.break_condition, env3, sc, fuel) {
                    if b == Val::Bool(false) {
                        lemma_loop_stable(t, env4, sc, fuel, (budget - 1) as nat);
                    } else {
                        lemma_eval_stable(*t.return_expr, env4, sc, fuel);
                    }
                }
            }
        }
    }
}

proof fn lemma_tail_stable(t: TailCallVal, es: Seq<Val>, env: Seq<ScopeVal>, s: int, fuel: nat)
    requires
        0 <= s < env.len(),
    ensures
        stable(call_tail(t, es, env, s, fuel), env, s, s + 1),
    decreases fuel, 3nat, 0nat,
{
    let c = t.closure;
    if c.params.len() == es.len() && c.environment < env.len() {
        lemma_args_stable(es, env, s, fuel);
        if let Some((Ok(vals), env1)) = eval_args(es, env, s, fuel) {
            if env1.len() < usize::MAX {
                let n = env1.len() as int;
                let ext = crate::environment::env_extend(env1, c.environment as int);
                let f = frame(c, vals, env1);
                lemma_bind_stable(ext, n, c.params, vals, crate::semantics::min(c.params.len(), vals.len()));
                assert forall|j: int| 0 <= j < n implies #[trigger] f[j] == env1[j] by {
                    assert(ext[j] == env1[j]);
                }
                lemma_body_stable(c.body, f, n, fuel);
                let inner = match run_body(c.body, f, n, fuel) {
                    None => None,
                    Some((Err(e), env2)) => Some((Err(e), env2)),
                    Some((Ok(_), env2)) => run_loop(t, env2, n, fuel, fuel),
                };
                if let Some((Ok(_), env2)) = run_body(c.body, f, n, fuel) {
                    lemma_loop_stable(t, env2, n, fuel, fuel);
                }
                lemma_release_stable(inner, env1, n);
            }
        }
    }
}

proof fn lemma_define_stable(ops: Seq<Val>, env: Seq<ScopeVal>, s: int, fuel: nat)
    requires
        0 <= s < env.len(),
    ensures
        stable(eval_define(ops, env, s, fuel), env, s, s + 1),
    decreases fuel, 2nat, 0nat,
{
    if ops.len() == 2 {
        if let Val::Symbol(_) = ops[0] {
            lemma_eval_stable(ops[1], env, s, fuel);
        }
    }
}

proof fn lemma_if_stable(ops: Seq<Val>, env: Seq<ScopeVal>, s: int, fuel: nat)
    requires
        0 <= s < env.len(),
    ensures
        stable(eval_if(ops, env, s, fuel), env, s, s + 1),
    decreases fuel, 2nat, 0nat,
{
    if ops.len() == 3 {
        lemma_eval_stable(ops[0], env, s, fuel);
        if let Some((Ok(_), env1)) = eval(ops[0], env, s, fuel) {
            lemma_eval_stable(ops[1], env1, s, fuel);
            lemma_eval_stable(ops[2], env1, s, fuel);
        }
    }
}

proof fn lemma_list_stable(l: Seq<Val>, env: Seq<ScopeVal>, s: int, fuel: nat)
    requires
        0 <= s < env.len(),
    ensures
        stable(eval_list(l, env, s, fuel), env, s, s + 1),
    decreases fuel, 4nat, 0nat,
{
    if l.len() > 0 {
        let ops = l.drop_first();
        match l[0] {
            Val::Closure(c) => {
                lemma_args_stable(ops, env, s, fuel);
                if let Some((Ok(vals), env1)) = eval_args(ops, env, s, fuel) {
                    lemma_apply_stable(c, vals, env1, fuel);
                }
            },
            Val::Symbol(_) | Val::List(_) => {
                lemma_eval_stable(l[0], env, s, fuel);
                if let Some((Ok(f), env1)) = eval(l[0], env, s, fuel) {
                    match f {
                        Val::Closure(c) => lemma_call_stable(c, ops, env1, s, fuel),
                        Val::TailCall(t) => lemma_tail_stable(t, ops, env1, s, fuel),
                        Val::InternalFunction(_, _) => lemma_args_stable(ops, env1, s, fuel),
                        _ => {},
                    }
                }
            },
            Val::Keyword(Keyword::Define) => lemma_define_stable(ops, env, s, fuel),
            Val::Keyword(Keyword::If) => lemma_if_stable(ops, env, s, fuel),
            _ => {},
        }
    }
}

/// A call leaves every scope that existed before it exactly as it was: its
/// parameters, and whatever its body defines, go only into its own frame.
/// So every name keeps, seen from any of those scopes, the value it had.
pub proof fn law_call_leaves_scopes(c: ClosureVal, vals: Seq<Val>, env: Seq<ScopeVal>, fuel: nat, p: int, m: Seq<char>)
    requires
        env_wf(env),
        0 <= p < env.len(),
    ensures
        match apply_closure(c, vals, env, fuel) {
            Some((_, e)) => env.len() <= e.len() && (forall|j: int| 0 <= j < env.len() ==> #[trigger] e[j] == env[j])
                && lookup(e, p, m) == lookup(env, p, m),
            None => true,
        },
{
    lemma_apply_stable(c, vals, env, fuel);
    if let Some((_, e)) = apply_closure(c, vals, env, fuel) {
        lemma_lookup_frame(env, e, p, m);
    }
}

/// `(if c a b)`: `c` is evaluated first; then `b` exactly when its value is
/// `#f`, and `a` for every other value; the other branch is not evaluated.
pub proof fn law_if_rule(c: Val, a: Val, b: Val, env: Seq<ScopeVal>, s: int, fuel: nat)
    ensures
        eval(Val::List(seq![Val::Keyword(Keyword::If), c, a, b]), env, s, fuel + 1) == match eval(c, env, s, fuel) {
            None => None,
            Some((Err(e), env1)) => Some((Err(e), env1)),
            Some((Ok(v), env1)) => if v == Val::Bool(false) {
                eval(b, env1, s, fuel)
            } else {
                eval(a, env1, s, fuel)
            },
        },
{
    let l = seq![Val::Keyword(Keyword::If), c, a, b];
    assert(l.drop_first() =~= seq![c, a, b]);
    assert(eval(Val::List(l), env, s, fuel + 1) == eval_list(l, env, s, fuel));
    assert(eval_list(l, env, s, fuel) == eval_if(seq![c, a, b], env, s, fuel));
}

/// A literal or a name: evaluating it never changes the environment.
pub open spec fn is_atom(v: Val) -> bool {
    is_literal(v) || v is Symbol
}

proof fn lemma_atoms_keep_env(es: Seq<Val>, env: Seq<ScopeVal>, s: int, fuel: nat)
    requires
        fuel >= 1,
        forall|i: int| 0 <= i < es.len() ==> is_atom(#[trigger] es[i]),
    ensures
        match eval_args(es, env, s, fuel) {
            Some((_, e)) => e == env,
            None => false,
        },
    decreases es.len(),
{
    if es.len() > 0 {
        let d = es.drop_last();
        assert forall|i: int| 0 <= i < d.len() implies is_atom(#[trigger] d[i]) by {
            assert(d[i] == es[i]);
        }
        lemma_atoms_keep_env(d, env, s, fuel);
        let x = es.last();
        assert(is_atom(es[es.len() - 1]));
        assert(match eval(x, env, s, fuel) {
            Some((_, e)) => e == env,
            None => false,
        });
    }
}

/// Calling a closure on arguments that are literals or names leaves every
/// scope that existed before the call, the caller's own included, exactly as
/// it was, whether the call succeeds or fails; and a call with any
/// arguments leaves the caller's ancestors as they were.
pub proof fn law_call_with_args_leaves_scopes(
    c: ClosureVal,
    es: Seq<Val>,
    env: Seq<ScopeVal>,
    s: int,
    fuel: nat,
    p: int,
    m: Seq<char>,
)
    requires
        env_wf(env),
        0 <= s < env.len(),
        0 <= p < env.len(),
    ensures
        stable(call_closure(c, es, env, s, fuel), env, s, s + 1),
        fuel >= 1 && (forall|i: int| 0 <= i < es.len() ==> is_atom(#[trigger] es[i])) ==> match call_closure(c, es, env, s, fuel) {
            Some((_, e)) => env.len() <= e.len() && (forall|j: int| 0 <= j < env.len() ==> #[trigger] e[j] == env[j])
                && lookup(e, p, m) == lookup(env, p, m),
            None => true,
        },
{
    lemma_call_stable(c, es, env, s, fuel);
    if fuel >= 1 && (forall|i: int| 0 <= i < es.len() ==> is_atom(#[trigger] es[i])) {
        lemma_atoms_keep_env(es, env, s, fuel);
        if let Some((Ok(vals), env1)) = eval_args(es, env, s, fuel) {
            lemma_apply_stable(c, vals, env1, fuel);
        }
        if let Some((_, e)) = call_closure(c, es, env, s, fuel) {
            lemma_lookup_frame(env, e, p, m);
        }
    }
}

proof fn lemma_div_no_fault(init: Tally, ns: Seq<Num>)
    requires
        init is Int || init is Float,
        forall|i: int| 0 <= i < ns.len() ==> !numeric_is_zero(#[trigger] ns[i]),
    ensures
        fold(Builtin::Div, init, numerals(ns)) is Int || fold(Builtin::Div, init, numerals(ns)) is Float,
        init is Float ==> fold(Builtin::Div, init, numerals(ns)) is Float,
    decreases ns.len(),
{
    if ns.len() > 0 {
        assert(numerals(ns).drop_last() =~= numerals(ns.drop_last()));
        lemma_div_no_fault(init, ns.drop_last());
        assert(!numeric_is_zero(ns[ns.len() - 1]));
    }
}

/// Division with a float among its arguments and no zero divisor gives a
/// float.
pub proof fn law_division_with_float(ns: Seq<Num>, k: int)
    requires
        ns.len() >= 2,
        0 <= k < ns.len(),
        ns[k] is Float,
        forall|i: int| 1 <= i < ns.len() ==> !numeric_is_zero(#[trigger] ns[i]),
    ensures
        arith_tally(Builtin::Div, numerals(ns)) == Tally::Float,
{
    let args = numerals(ns);
    let rest = ns.drop_first();
    assert(args.drop_first() =~= numerals(rest));
    assert(args[0] == Val::Numeric(ns[0]));
    assert forall|i: int| 0 <= i < rest.len() implies !numeric_is_zero(#[trigger] rest[i]) by {
        assert(rest[i] == ns[i + 1]);
    }
    lemma_div_no_fault(start(args[0]), rest);
    if k >= 1 {
        assert(rest[k - 1] == ns[k]);
        law_float_contaminates(Builtin::Div, start(args[0]), rest, k - 1);
    }
}

/// The left fold of truncating division from `q`.
pub open spec fn quotient(q: int, xs: Seq<int>) -> int
    decreases xs.len(),
{
    if xs.len() == 0 {
        q
    } else {
        trunc_div(quotient(q, xs.drop_last()), xs.last())
    }
}

proof fn lemma_integer_div_fold(q: int, xs: Seq<int>)
    requires
        forall|i: int| 0 <= i < xs.len() ==> #[trigger] xs[i] != 0,
    ensures
        fold(Builtin::Div, Tally::Int(q), integers(xs)) == Tally::Int(quotient(q, xs)),
    decreases xs.len(),
{
    if xs.len() > 0 {
        assert(integers(xs).drop_last() =~= integers(xs.drop_last()));
        lemma_integer_div_fold(q, xs.drop_last());
        assert(xs[xs.len() - 1] != 0);
    }
}

/// Division of integers with no zero divisor is exact: the left fold of
/// truncating division, e.g. `(/ 45 5 3)` is 3.
pub proof fn law_integer_division(xs: Seq<int>)
    requires
        xs.len() >= 2,
        forall|i: int| 1 <= i < xs.len() ==> #[trigger] xs[i] != 0,
    ensures
        arith_tally(Builtin::Div, integers(xs)) == Tally::Int(quotient(xs[0], xs.drop_first())),
{
    let rest = xs.drop_first();
    assert(integers(xs).drop_first() =~= integers(rest));
    assert(integers(xs)[0] == Val::Numeric(Num::Int(xs[0])));
    assert forall|i: int| 0 <= i < rest.len() implies #[trigger] rest[i] != 0 by {
        assert(rest[i] == xs[i + 1]);
    }
    lemma_integer_div_fold(xs[0], rest);
}

} // verus!

use crate::environment::{env_wf, last_index, lookup, owned_name, Environment, ScopeVal};
use crate::error::{parse_error_view, ParseFault, RuntimeError};
use crate::parser::{parse_all, read};
use crate::reader::{lex, shapes, Token};
use crate::evaluator::{agrees, keeps, Evaluator};
use crate::math::FloatArithmetic;
use crate::semantics::run_body;
use crate::value::{lemma_values_view, values_view, Builtin, InternalFunction, Val, Value};
use vstd::prelude::*;

verus! {

/// The step budget of one top-level evaluation.
pub const FUEL: u64 = 0xffff_ffff_ffff_ffff;

/// The top-level scope binds each built-in under its name.
pub open spec fn seeded(env: Seq<ScopeVal>) -> bool {
    &&& env_wf(env)
    &&& env.len() >= 1
    &&& lookup(env, 0, "+"@) == Some(Val::InternalFunction("+"@, Builtin::Add))
    &&& lookup(env, 0, "-"@) == Some(Val::InternalFunction("-"@, Builtin::Sub))
    &&& lookup(env, 0, "*"@) == Some(Val::InternalFunction("*"@, Builtin::Mul))
    &&& lookup(env, 0, "/"@) == Some(Val::InternalFunction("/"@, Builtin::Div))
    &&& lookup(env, 0, "="@) == Some(Val::InternalFunction("="@, Builtin::NumericEqual))
}

/// Running the program that the tokens `ts` parse into, from `env0`, gives
/// `r` and leaves `env1`; a parse failure is a syntax error that leaves the
/// environment as it was.
pub open spec fn parsed_and_run(ts: Seq<Token>, env0: Seq<ScopeVal>, r: Result<Value, RuntimeError>, env1: Seq<ScopeVal>) -> bool {
    match parse_all(ts, 0, Seq::empty()) {
        Ok(prog) => agrees(run_body(prog, env0, 0, FUEL as nat), r, env1),
        Err(e) => env1 == env0 && (r matches Err(RuntimeError::SyntaxError(p)) && parse_error_view(p) == e),
    }
}

/// The top-level bindings: each built-in under its name.
pub open spec fn builtin_bindings() -> Seq<(Seq<char>, Val)> {
    seq![("+"@, Val::InternalFunction("+"@, Builtin::Add)), ("-"@, Val::InternalFunction("-"@, Builtin::Sub)),
        ("*"@, Val::InternalFunction("*"@, Builtin::Mul)), ("/"@, Val::InternalFunction("/"@, Builtin::Div)),
        ("="@, Val::InternalFunction("="@, Builtin::NumericEqual))]
}

/// An interpreter: one top-level scope, at index 0, that persists across
/// evaluations.
pub struct Interpreter<F: FloatArithmetic> {
    pub environment: Environment,
    pub evaluator: Evaluator<F>,
}

fn builtin(name: &str, function: Builtin) -> (r: Value)
    ensures
        r@ == Val::InternalFunction(name@, function),
{
    Value::InternalFunction(InternalFunction { name: owned_name(name), function })
}

impl<F: FloatArithmetic> Interpreter<F> {
    /// An interpreter whose top level binds `+ - * / =`.
    pub fn new(floats: F) -> (r: Self)
        ensures
            r.environment@.len() == 1,
            r.environment@[0].parent is None,
            r.environment@[0].vars == builtin_bindings(),
            seeded(r.environment@),
    {
        Interpreter { environment: Self::initialize_environment(), evaluator: Evaluator { floats } }
    }

    /// A fresh environment with the built-ins bound in its top-level scope.
    pub fn initialize_environment() -> (env: Environment)
        ensures
            env@.len() == 1,
            env@[0].parent is None,
            env@[0].vars == builtin_bindings(),
            seeded(env@),
    {
        let mut env = Environment::new();
        proof {
            reveal_strlit("+");
            reveal_strlit("-");
            reveal_strlit("*");
            reveal_strlit("/");
            reveal_strlit("=");
            reveal_with_fuel(last_index, 6);
            let names = seq!["+"@, "-"@, "*"@, "/"@, "="@];
            assert forall|i: int, j: int| 0 <= i < j < 5 implies names[i] != names[j] by {
                assert(names[i][0] != names[j][0]);
            }
        }
        env.set(0, "+", builtin("+", Builtin::Add));
        assert(env@[0].vars =~= seq![("+"@, Val::InternalFunction("+"@, Builtin::Add))]);
        env.set(0, "-", builtin("-", Builtin::Sub));
        assert(env@[0].vars =~= seq![("+"@, Val::InternalFunction("+"@, Builtin::Add)), ("-"@, Val::InternalFunction("-"@, Builtin::Sub))]);
        env.set(0, "*", builtin("*", Builtin::Mul));
        assert(env@[0].vars =~= seq![("+"@, Val::InternalFunction("+"@, Builtin::Add)), ("-"@, Val::InternalFunction("-"@, Builtin::Sub)),
            ("*"@, Val::InternalFunction("*"@, Builtin::Mul))]);
        env.set(0, "/", builtin("/", Builtin::Div));
        assert(env@[0].vars =~= seq![("+"@, Val::InternalFunction("+"@, Builtin::Add)), ("-"@, Val::InternalFunction("-"@, Builtin::Sub)),
            ("*"@, Val::InternalFunction("*"@, Builtin::Mul)), ("/"@, Val::InternalFunction("/"@, Builtin::Div))]);
        env.set(0, "=", builtin("=", Builtin::NumericEqual));
        assert(env@[0].vars =~= seq![("+"@, Val::InternalFunction("+"@, Builtin::Add)), ("-"@, Val::InternalFunction("-"@, Builtin::Sub)),
            ("*"@, Val::InternalFunction("*"@, Builtin::Mul)), ("/"@, Val::InternalFunction("/"@, Builtin::Div)),
            ("="@, Val::InternalFunction("="@, Builtin::NumericEqual))]);
        env
    }

    /// Evaluates the expressions of a program in order in the top-level
    /// scope; the value of the last one (`Void` for none). The first failure
    /// ends the program; bindings made before it stay.
    pub fn eval_program(&mut self, program: &Vec<Value>) -> (r: Result<Value, RuntimeError>)
        requires
            env_wf(old(self).environment@),
            old(self).environment@.len() >= 1,
        ensures
            keeps(old(self).environment@, final(self).environment@),
            agrees(run_body(values_view(program@), old(self).environment@, 0, FUEL as nat), r, final(self).environment@),
    {
        let mut last = Value::Void;
        let ghost es = values_view(program@);
        let ghost env0 = self.environment@;
        proof { lemma_values_view(program@); }
        let mut i: usize = 0;
        while i < program.len()
            invariant
                i <= program.len(),
                es == values_view(program@),
                es.len() == program@.len(),
                forall|k: int| 0 <= k < program@.len() ==> #[trigger] es[k] == program@[k]@,
                env0 == old(self).environment@,
                env0.len() >= 1,
                keeps(env0, self.environment@),
                match run_body(es.subrange(0, i as int), env0, 0, FUEL as nat) {
                    Some((Ok(v), e)) => v == last@ && e == self.environment@,
                    Some((Err(_), _)) => false,
                    None => true,
                },
            decreases program.len() - i,
        {
            let ghost sub = es.subrange(0, i + 1);
            proof {
                assert(sub.drop_last() =~= es.subrange(0, i as int));
                assert(sub.last() == program@[i as int]@);
            }
            match self.evaluator.eval_value(&program[i], &mut self.environment, 0, FUEL) {
                Ok(v) => {
                    last = v;
                },
                Err(e) => {
                    proof { crate::evaluator::lemma_run_body_sticks(es, env0, 0, FUEL as nat, i + 1); }
                    return Err(e);
                },
            }
            i = i + 1;
        }
        proof { assert(es.subrange(0, i as int) =~= es); }
        Ok(last)
    }

    /// Reads a program text and evaluates it. A text that does not read is a
    /// syntax error, and nothing of it is evaluated.
    pub fn eval(&mut self, input: &str) -> (r: Result<Value, RuntimeError>)
        requires
            env_wf(old(self).environment@),
            old(self).environment@.len() >= 1,
        ensures
            keeps(old(self).environment@, final(self).environment@),
            match lex(input@) {
                Err(e) => final(self).environment@ == old(self).environment@
                    && (r matches Err(RuntimeError::SyntaxError(p)) && parse_error_view(p) == ParseFault::LexicalError(e)),
                Ok(toks) => exists|ts: Seq<Token>| shapes(ts) == toks && #[trigger] parsed_and_run(ts, old(self).environment@, r, final(self).environment@),
            },
    {
        match read(input, &self.evaluator.floats) {
            Ok(program) => {
                let r = self.eval_program(&program);
                proof {
                    if let Ok(toks) = lex(input@) {
                        let ts = choose|ts: Seq<Token>| shapes(ts) == toks && #[trigger] crate::parser::read_outcome(ts, Ok::<Vec<Value>, crate::error::ParseError>(program));
                        assert(parsed_and_run(ts, old(self).environment@, r, self.environment@));
                    }
                }
                r
            },
            Err(e) => {
                let r = Err(RuntimeError::SyntaxError(e));
                proof {
                    if let Ok(toks) = lex(input@) {
                        let ts = choose|ts: Seq<Token>| shapes(ts) == toks && #[trigger] crate::parser::read_outcome(ts, Err::<Vec<Value>, crate::error::ParseError>(e));
                        assert(parsed_and_run(ts, old(self).environment@, r, self.environment@));
                    }
                }
                r
            },
        }
    }
}

} // verus!
